//! Run the suite: set the stage, say the thing, judge what happened, put it
//! back.
//!
//! What to say, and to which device, is settled before anything is said: each
//! case is resolved once and not once per language, because the same device must
//! be used in every language or the cells cannot be held against each other.

use vstd::prelude::*;

use super::fixture;
use super::fixture::{render, Case, CaseReport, CaseReportV, CaseV, Manifest, Verdict};
use super::house::{EntityV, House};
use super::requirement;
use super::requirement::{Target, TargetV};
use super::scoring::{Judgement, JudgementV};
use super::turn;
use super::turn::{ObservedCall, ObservedCallV, TurnObservation, TurnObservationV};
use crate::order;
use crate::text;
use crate::text::{copy_opt, copy_texts, count_text, holds, join, own, pad, same};

verus! {

/// What a run needs to know that the fixtures do not say.
#[derive(Debug, Clone)]
pub struct RunOptions {
    /// Which languages to say each utterance in.
    pub languages: Vec<String>,
    /// Run each case this many times. More than one is how a routing failure is
    /// told from a coin toss.
    pub repeats: u32,
    /// Resolve targets, print what would be said and to which device, and touch
    /// nothing.
    pub dry_run: bool,
    /// Asked for with the run and carried with it. No case says that it makes
    /// noise, so no case is left out for it.
    pub quiet_hours: bool,
    /// Only run cases whose id contains this.
    pub only: Option<String>,
}

/// What [`RunOptions`] say.
#[verifier::ext_equal]
pub struct RunOptionsV {
    pub languages: Seq<Seq<char>>,
    pub repeats: nat,
    pub dry_run: bool,
    pub quiet_hours: bool,
    pub only: Option<Seq<char>>,
}

impl View for RunOptions {
    type V = RunOptionsV;

    open spec fn view(&self) -> RunOptionsV {
        RunOptionsV {
            languages: text::texts(self.languages@),
            repeats: self.repeats as nat,
            dry_run: self.dry_run,
            quiet_hours: self.quiet_hours,
            only: text::opt_text(self.only),
        }
    }
}

/// Everything one run produced.
#[derive(Debug, Clone)]
pub struct RunOutcome {
    /// The shareable layer: verdicts and timings, keyed by case id.
    pub safe: Vec<CaseReport>,
    /// The local layer: which device was chosen, the literal arguments, the
    /// reply. This is what a failure is debugged from.
    pub detail: Vec<CaseDetail>,
}

/// The private half of one case's result.
#[derive(Debug, Clone)]
pub struct CaseDetail {
    pub id: String,
    pub language: String,
    pub said: String,
    pub device: String,
    /// Everything the command was expected to move.
    pub group: Vec<String>,
    pub area: Option<String>,
    pub bystander: Option<String>,
    pub reply: String,
    pub calls: Vec<DetailCall>,
    /// Why the verdict came out as it did, in words.
    pub notes: Vec<String>,
}

/// What a [`CaseDetail`] says.
#[verifier::ext_equal]
pub struct CaseDetailV {
    pub id: Seq<char>,
    pub language: Seq<char>,
    pub said: Seq<char>,
    pub device: Seq<char>,
    pub group: Seq<Seq<char>>,
    pub area: Option<Seq<char>>,
    pub bystander: Option<Seq<char>>,
    pub reply: Seq<char>,
    pub calls: Seq<DetailCallV>,
    pub notes: Seq<Seq<char>>,
}

impl View for CaseDetail {
    type V = CaseDetailV;

    open spec fn view(&self) -> CaseDetailV {
        CaseDetailV {
            id: self.id@,
            language: self.language@,
            said: self.said@,
            device: self.device@,
            group: text::texts(self.group@),
            area: text::opt_text(self.area),
            bystander: text::opt_text(self.bystander),
            reply: self.reply@,
            calls: order::views(self.calls@),
            notes: text::texts(self.notes@),
        }
    }
}

/// One call, as the private half keeps it.
#[derive(Debug, Clone)]
pub struct DetailCall {
    pub name: String,
    pub arguments: String,
    pub outcome: Option<String>,
}

/// What a [`DetailCall`] says.
#[verifier::ext_equal]
pub struct DetailCallV {
    pub name: Seq<char>,
    pub arguments: Seq<char>,
    pub outcome: Option<Seq<char>>,
}

impl View for DetailCall {
    type V = DetailCallV;

    open spec fn view(&self) -> DetailCallV {
        DetailCallV {
            name: self.name@,
            arguments: self.arguments@,
            outcome: text::opt_text(self.outcome),
        }
    }
}

// ---------------------------------------------------------------------------
// Selecting
// ---------------------------------------------------------------------------

/// Whether a case is asked for.
pub open spec fn is_selected(id: Seq<char>, only: Option<Seq<char>>) -> bool {
    only matches Some(f) ==> text::has_sub(id, f)
}

/// Whether a case is asked for.
pub fn selects(case: &Case, only: &Option<String>) -> (r: bool)
    ensures
        r == is_selected(case@.id, text::opt_text(*only)),
{
    match only {
        Some(f) => holds(&case.id, f),
        None => true,
    }
}

/// How many cases are asked for.
pub open spec fn selected_count(cases: Seq<CaseV>, only: Option<Seq<char>>) -> nat
    decreases cases.len(),
{
    if cases.len() == 0 {
        0
    } else {
        selected_count(cases.drop_last(), only) + (if is_selected(cases.last().id, only) {
            1nat
        } else {
            0nat
        })
    }
}

/// How many cases will actually run, rather than how many the file holds.
pub fn count_selected(cases: &Vec<Case>, only: &Option<String>) -> (r: usize)
    ensures
        r == selected_count(order::views(cases@), text::opt_text(*only)),
{
    let ghost all = order::views(cases@);
    let mut n: usize = 0;
    for i in 0..cases.len()
        invariant
            all == order::views(cases@),
            n <= i,
            n == selected_count(all.take(i as int), text::opt_text(*only)),
    {
        proof {
            assert(all.take(i + 1).drop_last() == all.take(i as int));
            assert(all[i as int] == cases@[i as int]@);
        }
        if selects(&cases[i], only) {
            n = n + 1;
        }
    }
    assert(all.take(all.len() as int) == all);
    n
}

// ---------------------------------------------------------------------------
// Skipping
// ---------------------------------------------------------------------------

/// The report of a case that was not run.
pub open spec fn skip_report(case: CaseV, lang: Seq<char>, why: Seq<char>) -> CaseReportV {
    CaseReportV {
        id: case.id,
        class: case.class,
        language: lang,
        verdict: Verdict::Skipped,
        routed_first_try: false,
        outcome_correct: false,
        bystander_held: None,
        reply_truthful: None,
        reply_language_matched: None,
        calls: 0,
        elapsed_ms: 0,
        skipped_because: Some(why),
    }
}

/// The report of a case that was not run, with the reason visible rather than
/// inferred from a missing row.
pub fn skipped(case: &Case, lang: &str, why: &str) -> (r: CaseReport)
    ensures
        r@ == skip_report(case@, lang@, why@),
{
    CaseReport {
        id: case.id.clone(),
        class: case.class,
        language: own(lang),
        verdict: Verdict::Skipped,
        routed_first_try: false,
        outcome_correct: false,
        bystander_held: None,
        reply_truthful: None,
        reply_language_matched: None,
        calls: 0,
        elapsed_ms: 0,
        skipped_because: Some(own(why)),
    }
}

// ---------------------------------------------------------------------------
// What to say
// ---------------------------------------------------------------------------

/// One thing to do in a run.
#[derive(Debug, Clone)]
pub enum Step {
    /// Print a line, and touch nothing.
    Say(String),
    /// Report a case as skipped.
    Skip(CaseReport),
    /// Say something to the assistant, so many times.
    Turn {
        /// Which case of the manifest this is.
        case: usize,
        target: Target,
        said: String,
        language: String,
        times: u32,
    },
}

/// What a [`Step`] says.
pub enum StepV {
    Say(Seq<char>),
    Skip(CaseReportV),
    Turn { case: nat, target: TargetV, said: Seq<char>, language: Seq<char>, times: nat },
}

impl View for Step {
    type V = StepV;

    open spec fn view(&self) -> StepV {
        match self {
            Step::Say(s) => StepV::Say(s@),
            Step::Skip(r) => StepV::Skip(r@),
            Step::Turn { case, target, said, language, times } => StepV::Turn {
                case: *case as nat,
                target: target@,
                said: said@,
                language: language@,
                times: *times as nat,
            },
        }
    }
}

/// The utterance written under a language tag.
pub open spec fn utterance_in(
    utterances: Seq<(Seq<char>, Seq<char>)>,
    lang: Seq<char>,
) -> Option<Seq<char>>
    decreases utterances.len(),
{
    if utterances.len() == 0 {
        None
    } else if utterances[0].0 == lang {
        Some(utterances[0].1)
    } else {
        utterance_in(utterances.drop_first(), lang)
    }
}

fn utterance<'a>(case: &'a Case, lang: &str) -> (r: Option<&'a str>)
    ensures
        text::opt_str(r) == utterance_in(case@.utterances, lang@),
{
    let ghost all = case@.utterances;
    assert(all.skip(0) == all);
    for i in 0..case.utterances.len()
        invariant
            all == case@.utterances,
            utterance_in(all, lang@) == utterance_in(all.skip(i as int), lang@),
    {
        proof {
            assert(all.skip(i as int).drop_first() == all.skip(i + 1));
            assert(all[i as int].0 == case.utterances@[i as int].0@);
            assert(all[i as int].1 == case.utterances@[i as int].1@);
        }
        if same(&case.utterances[i].0, lang) {
            return Some(case.utterances[i].1.as_str());
        }
    }
    None
}

/// The start of a line about a case.
pub open spec fn case_column(id: Seq<char>) -> Seq<char> {
    "  "@ + text::padded(id, 34) + " "@
}

/// What a dry run prints of a case that cannot be run.
pub open spec fn skip_line(id: Seq<char>, why: Seq<char>) -> Seq<char> {
    case_column(id) + "skipped — "@ + why
}

/// What a dry run prints of the devices a command is aimed at.
pub open spec fn aim_words(t: TargetV) -> Seq<char> {
    (if t.group.len() > 1 {
        text::decimal(t.group.len()) + " devices: "@ + text::joined(
            requirement::leading_names(t.group),
            ", "@,
        )
    } else {
        "device: "@ + t.device.name
    }) + match t.bystander {
        Some(b) => "   must not move: "@ + b.name,
        None => Seq::empty(),
    }
}

/// What a dry run prints of a case that can be run.
pub open spec fn dry_line(
    id: Seq<char>,
    lang: Seq<char>,
    said: Seq<char>,
    t: TargetV,
) -> Seq<char> {
    case_column(id) + lang + "  \""@ + said + "\"\n      "@ + aim_words(t)
}

/// How often each thing is said: at least once.
pub open spec fn times_said(repeats: nat) -> nat {
    if repeats == 0 {
        1
    } else {
        repeats
    }
}

/// Why a case without an utterance in a language is skipped in it.
pub open spec fn no_utterance() -> Seq<char> {
    "no utterance written in this language"@
}

/// What is done with a resolved case in one language.
pub open spec fn language_step(
    case: CaseV,
    at: nat,
    t: TargetV,
    opts: RunOptionsV,
    lang: Seq<char>,
) -> StepV {
    match utterance_in(case.utterances, lang) {
        None => StepV::Skip(skip_report(case, lang, no_utterance())),
        Some(template) => {
            let said = fixture::rendered(template, t.device.name, t.area);
            if opts.dry_run {
                StepV::Say(dry_line(case.id, lang, said, t))
            } else {
                StepV::Turn {
                    case: at,
                    target: t,
                    said,
                    language: lang,
                    times: times_said(opts.repeats),
                }
            }
        },
    }
}

/// What is done with one case.
pub open spec fn case_steps(
    case: CaseV,
    at: nat,
    opts: RunOptionsV,
    h: Seq<EntityV>,
) -> Seq<StepV> {
    if !is_selected(case.id, opts.only) {
        Seq::empty()
    } else {
        match requirement::resolved(case.requires, h) {
            Err(why) => (if opts.dry_run {
                seq![StepV::Say(skip_line(case.id, why))]
            } else {
                Seq::empty()
            }) + opts.languages.map_values(
                |lang: Seq<char>| StepV::Skip(skip_report(case, lang, why)),
            ),
            Ok(t) => opts.languages.map_values(
                |lang: Seq<char>| language_step(case, at, t, opts, lang),
            ),
        }
    }
}

/// Everything a run does, in order.
pub open spec fn all_steps(cases: Seq<CaseV>, opts: RunOptionsV, h: Seq<EntityV>) -> Seq<StepV>
    decreases cases.len(),
{
    if cases.len() == 0 {
        Seq::empty()
    } else {
        all_steps(cases.drop_last(), opts, h) + case_steps(
            cases.last(),
            (cases.len() - 1) as nat,
            opts,
            h,
        )
    }
}

/// Why a house that describes nothing is refused.
pub open spec fn empty_house() -> Seq<char> {
    "the server described no devices — the suite would skip everything and report a perfect score against an empty house"@
}

/// What a plan says.
pub open spec fn plan_result(r: Result<Vec<Step>, String>) -> Result<Seq<StepV>, Seq<char>> {
    match r {
        Ok(v) => Ok(order::views(v@)),
        Err(e) => Err(e@),
    }
}

fn column(id: &str) -> (r: String)
    ensures
        r@ == case_column(id@),
{
    let mut s = own("  ");
    let cell = pad(id, 34);
    s.append(&cell);
    s.append(" ");
    s
}

fn say_skip(id: &str, why: &str) -> (r: String)
    ensures
        r@ == skip_line(id@, why@),
{
    let mut s = column(id);
    s.append("skipped — ");
    s.append(why);
    s
}

fn owned_names(target: &Target) -> (r: Vec<String>)
    ensures
        text::texts(r@) == requirement::leading_names(target@.group),
{
    let ghost names = requirement::leading_names(target@.group);
    let mut out: Vec<String> = Vec::new();
    for i in 0..target.group.len()
        invariant
            names == requirement::leading_names(target@.group),
            out@.len() == i,
            forall|k: int| 0 <= k < i ==> (#[trigger] out@[k])@ == names[k],
    {
        assert(names[i as int] == target.group@[i as int]@.name);
        out.push(target.group[i].name.clone());
    }
    assert(text::texts(out@) =~= names);
    out
}

fn say_aim(target: &Target) -> (r: String)
    ensures
        r@ == aim_words(target@),
{
    let mut s = if target.is_group() {
        let mut s = count_text(target.group.len());
        s.append(" devices: ");
        let names = owned_names(target);
        let list = join(&names, ", ");
        s.append(&list);
        s
    } else {
        let mut s = own("device: ");
        s.append(&target.device.name);
        s
    };
    let ghost aim = s@;
    match &target.bystander {
        Some(b) => {
            let mut more = own("   must not move: ");
            more.append(&b.name);
            s.append(&more);
        },
        None => {
            assert(aim + Seq::<char>::empty() =~= aim);
        },
    }
    s
}

fn say_dry(id: &str, lang: &str, said: &str, target: &Target) -> (r: String)
    ensures
        r@ == dry_line(id@, lang@, said@, target@),
{
    let mut s = column(id);
    s.append(lang);
    s.append("  \"");
    s.append(said);
    s.append("\"\n      ");
    let aim = say_aim(target);
    s.append(&aim);
    s
}

fn step_in(case: &Case, at: usize, target: &Target, opts: &RunOptions, lang: &str) -> (r: Step)
    ensures
        r@ == language_step(case@, at as nat, target@, opts@, lang@),
{
    let template = match utterance(case, lang) {
        Some(t) => t,
        None => {
            return Step::Skip(skipped(case, lang, "no utterance written in this language"));
        },
    };
    let area = match &target.area {
        Some(a) => Some(a.as_str()),
        None => None,
    };
    let said = render(template, &target.device.name, area);
    if opts.dry_run {
        return Step::Say(say_dry(&case.id, lang, &said, target));
    }
    Step::Turn {
        case: at,
        target: target.copy(),
        said,
        language: own(lang),
        times: if opts.repeats == 0 {
            1
        } else {
            opts.repeats
        },
    }
}

fn push_skips(out: &mut Vec<Step>, case: &Case, opts: &RunOptions, why: &str)
    ensures
        order::views(final(out)@) == order::views(old(out)@) + opts@.languages.map_values(
            |lang: Seq<char>| StepV::Skip(skip_report(case@, lang, why@)),
        ),
{
    let ghost start = order::views(out@);
    let ghost told = opts@.languages.map_values(
        |lang: Seq<char>| StepV::Skip(skip_report(case@, lang, why@)),
    );
    assert(start + told.take(0) =~= start);
    for i in 0..opts.languages.len()
        invariant
            told == opts@.languages.map_values(
                |lang: Seq<char>| StepV::Skip(skip_report(case@, lang, why@)),
            ),
            order::views(out@) == start + told.take(i as int),
    {
        let ghost before = order::views(out@);
        let step = Step::Skip(skipped(case, &opts.languages[i], why));
        let ghost one = step@;
        assert(opts@.languages[i as int] == opts.languages@[i as int]@);
        assert(told[i as int] == one);
        out.push(step);
        assert(order::views(out@) =~= before.push(one));
        assert(told.take(i + 1) =~= told.take(i as int).push(one));
        assert(order::views(out@) =~= start + told.take(i + 1));
    }
    assert(told.take(told.len() as int) == told);
}

fn push_turns(out: &mut Vec<Step>, case: &Case, at: usize, target: &Target, opts: &RunOptions)
    ensures
        order::views(final(out)@) == order::views(old(out)@) + opts@.languages.map_values(
            |lang: Seq<char>| language_step(case@, at as nat, target@, opts@, lang),
        ),
{
    let ghost start = order::views(out@);
    let ghost told = opts@.languages.map_values(
        |lang: Seq<char>| language_step(case@, at as nat, target@, opts@, lang),
    );
    assert(start + told.take(0) =~= start);
    for i in 0..opts.languages.len()
        invariant
            told == opts@.languages.map_values(
                |lang: Seq<char>| language_step(case@, at as nat, target@, opts@, lang),
            ),
            order::views(out@) == start + told.take(i as int),
    {
        let ghost before = order::views(out@);
        let step = step_in(case, at, target, opts, &opts.languages[i]);
        let ghost one = step@;
        assert(opts@.languages[i as int] == opts.languages@[i as int]@);
        assert(told[i as int] == one);
        out.push(step);
        assert(order::views(out@) =~= before.push(one));
        assert(told.take(i + 1) =~= told.take(i as int).push(one));
        assert(order::views(out@) =~= start + told.take(i + 1));
    }
    assert(told.take(told.len() as int) == told);
}

fn push_case(out: &mut Vec<Step>, case: &Case, at: usize, opts: &RunOptions, h: &House)
    ensures
        order::views(final(out)@) == order::views(old(out)@) + case_steps(
            case@,
            at as nat,
            opts@,
            h@,
        ),
{
    let ghost start = order::views(out@);
    if !selects(case, &opts.only) {
        assert(start + Seq::<StepV>::empty() =~= start);
        return;
    }
    match case.requires.resolve(h) {
        Ok(target) => {
            push_turns(out, case, at, &target, opts);
        },
        Err(why) => {
            let reason = why.to_text();
            // A dry run that silently omits a case reads as a fixture that was
            // never written.
            if opts.dry_run {
                let line = Step::Say(say_skip(&case.id, &reason));
                let ghost one = line@;
                out.push(line);
                assert(order::views(out@) =~= start + seq![one]);
            } else {
                assert(order::views(out@) =~= start + Seq::<StepV>::empty());
            }
            push_skips(out, case, opts, &reason);
            assert(order::views(out@) =~= start + case_steps(case@, at as nat, opts@, h@));
        },
    }
}

/// Everything a run does, in order, or why it is not begun.
///
/// An empty house is refused: the suite would skip everything and report a
/// perfect score against it.
pub fn plan(manifest: &Manifest, opts: &RunOptions, h: &House) -> (r: Result<Vec<Step>, String>)
    ensures
        plan_result(r) == (if h@.len() == 0 {
            Err(empty_house())
        } else {
            Ok(all_steps(order::views(manifest.cases@), opts@, h@))
        }),
{
    assert(h@.len() == h.entities@.len());
    if h.entities.len() == 0 {
        return Err(
            own(
                "the server described no devices — the suite would skip everything and report a perfect score against an empty house",
            ),
        );
    }
    let ghost all = order::views(manifest.cases@);
    let mut out: Vec<Step> = Vec::new();
    assert(order::views(out@) =~= all_steps(all.take(0), opts@, h@));
    for i in 0..manifest.cases.len()
        invariant
            all == order::views(manifest.cases@),
            order::views(out@) == all_steps(all.take(i as int), opts@, h@),
    {
        proof {
            assert(all.take(i + 1).drop_last() == all.take(i as int));
            assert(all[i as int] == manifest.cases@[i as int]@);
        }
        push_case(&mut out, &manifest.cases[i], i, opts, h);
    }
    assert(all.take(all.len() as int) == all);
    Ok(out)
}

// ---------------------------------------------------------------------------
// What is written down
// ---------------------------------------------------------------------------

/// The shareable half of one case's result.
pub open spec fn report_of(
    case: CaseV,
    lang: Seq<char>,
    obs: TurnObservationV,
    j: JudgementV,
) -> CaseReportV {
    CaseReportV {
        id: case.id,
        class: case.class,
        language: lang,
        verdict: j.verdict,
        routed_first_try: j.routed_first_try,
        outcome_correct: j.outcome_correct,
        bystander_held: j.bystander_held,
        reply_truthful: j.reply_truthful,
        reply_language_matched: j.reply_language_matched,
        calls: obs.calls.len(),
        elapsed_ms: obs.elapsed_ms,
        skipped_because: None,
    }
}

/// The shareable half of one case's result.
pub fn report(case: &Case, lang: &str, obs: &TurnObservation, j: &Judgement) -> (r: CaseReport)
    ensures
        r@ == report_of(case@, lang@, obs@, j@),
{
    CaseReport {
        id: case.id.clone(),
        class: case.class,
        language: own(lang),
        verdict: j.verdict,
        routed_first_try: j.routed_first_try,
        outcome_correct: j.outcome_correct,
        bystander_held: j.bystander_held,
        reply_truthful: j.reply_truthful,
        reply_language_matched: j.reply_language_matched,
        calls: obs.calls.len(),
        elapsed_ms: obs.elapsed_ms,
        skipped_because: None,
    }
}

/// The calls, as the private half keeps them.
pub open spec fn detail_calls(calls: Seq<ObservedCallV>) -> Seq<DetailCallV> {
    calls.map_values(
        |c: ObservedCallV|
            DetailCallV { name: c.name, arguments: c.arguments, outcome: c.outcome },
    )
}

/// The private half of one case's result.
pub open spec fn detail_of(
    case: CaseV,
    target: TargetV,
    said: Seq<char>,
    lang: Seq<char>,
    obs: TurnObservationV,
    j: JudgementV,
) -> CaseDetailV {
    CaseDetailV {
        id: case.id,
        language: lang,
        said,
        device: target.device.name,
        group: requirement::leading_names(target.group),
        area: target.area,
        bystander: match target.bystander {
            Some(b) => Some(b.name),
            None => None,
        },
        reply: obs.reply,
        calls: detail_calls(obs.calls),
        notes: j.notes,
    }
}

fn keep_calls(calls: &Vec<ObservedCall>) -> (r: Vec<DetailCall>)
    ensures
        order::views(r@) == detail_calls(turn::call_views(calls@)),
{
    let mut out: Vec<DetailCall> = Vec::new();
    for i in 0..calls.len()
        invariant
            out@.len() == i,
            forall|k: int|
                0 <= k < i ==> (#[trigger] out@[k])@ == (DetailCallV {
                    name: calls@[k]@.name,
                    arguments: calls@[k]@.arguments,
                    outcome: calls@[k]@.outcome,
                }),
    {
        out.push(
            DetailCall {
                name: calls[i].name.clone(),
                arguments: calls[i].arguments.clone(),
                outcome: copy_opt(&calls[i].outcome),
            },
        );
    }
    assert(order::views(out@) =~= detail_calls(turn::call_views(calls@)));
    out
}

/// The private half of one case's result.
pub fn detail(
    case: &Case,
    target: &Target,
    said: &str,
    lang: &str,
    obs: &TurnObservation,
    j: &Judgement,
) -> (r: CaseDetail)
    ensures
        r@ == detail_of(case@, target@, said@, lang@, obs@, j@),
{
    CaseDetail {
        id: case.id.clone(),
        language: own(lang),
        said: own(said),
        device: target.device.name.clone(),
        group: owned_names(target),
        area: copy_opt(&target.area),
        bystander: match &target.bystander {
            Some(b) => Some(b.name.clone()),
            None => None,
        },
        reply: obs.reply.clone(),
        calls: keep_calls(&obs.calls),
        notes: copy_texts(&j.notes),
    }
}

/// What is said when a device could not be put back.
pub open spec fn not_restored(device: Seq<char>, id: Seq<char>, why: Seq<char>) -> Seq<char> {
    "could not put "@ + device + " back the way it was after `"@ + id + "`: "@ + why
        + ". Stopping — the rest of the suite would be measuring a home this run has already changed."@
}

/// What is said when a device could not be put back. The run stops there: a
/// half-restored home makes every later case meaningless.
pub fn restore_failed(case: &Case, target: &Target, why: &str) -> (r: String)
    ensures
        r@ == not_restored(target@.device.name, case@.id, why@),
{
    let mut s = own("could not put ");
    s.append(&target.device.name);
    s.append(" back the way it was after `");
    s.append(&case.id);
    s.append("`: ");
    s.append(why);
    s.append(
        ". Stopping — the rest of the suite would be measuring a home this run has already changed.",
    );
    s
}

// ---------------------------------------------------------------------------
// The end of a run
// ---------------------------------------------------------------------------

/// How a run ends.
#[derive(Debug)]
pub struct Ending<E> {
    /// Whether the home is to be put back the way it was found.
    pub put_back: bool,
    pub result: Result<RunOutcome, E>,
}

/// How a run ends, given how its steps did: the home is put back unless nothing
/// was touched, also where a step failed, and the run fails exactly where a step
/// did.
pub open spec fn ended<E>(dry_run: bool, out: RunOutcome, steps: Result<(), E>) -> Ending<E> {
    Ending {
        put_back: !dry_run,
        result: match steps {
            Ok(_) => Ok(out),
            Err(e) => Err(e),
        },
    }
}

/// How a run ends once its steps are over.
///
/// A half-finished run is precisely when the home is most likely to be left
/// switched on, so it is put back whether or not a step failed, and the failure
/// is reported afterwards either way.
pub fn ending<E>(opts: &RunOptions, out: RunOutcome, steps: Result<(), E>) -> (r: Ending<E>)
    ensures
        r == ended(opts@.dry_run, out, steps),
{
    Ending {
        put_back: !opts.dry_run,
        result: match steps {
            Ok(_) => Ok(out),
            Err(e) => Err(e),
        },
    }
}

// ---------------------------------------------------------------------------
// Laws
// ---------------------------------------------------------------------------

/// Whether the home is put back does not depend on how the run went, and whether
/// the run failed does not depend on whether the home was put back.
pub proof fn law_a_failed_run_is_put_back_too<E>(
    dry_run: bool,
    out: RunOutcome,
    good: Result<(), E>,
    bad: Result<(), E>,
)
    requires
        good is Ok,
        bad is Err,
    ensures
        ended(dry_run, out, good).put_back == !dry_run,
        ended(dry_run, out, bad).put_back == !dry_run,
        ended(dry_run, out, good).result == Ok::<RunOutcome, E>(out),
        ended(dry_run, out, bad).result == Err::<RunOutcome, E>(bad->Err_0),
{
}

/// A dry run touches nothing: no step of it says anything to the assistant.
pub proof fn law_a_dry_run_touches_nothing(
    cases: Seq<CaseV>,
    opts: RunOptionsV,
    h: Seq<EntityV>,
    i: int,
)
    requires
        opts.dry_run,
        0 <= i < all_steps(cases, opts, h).len(),
    ensures
        !(all_steps(cases, opts, h)[i] is Turn),
    decreases cases.len(),
{
    let rest = all_steps(cases.drop_last(), opts, h);
    if i < rest.len() {
        law_a_dry_run_touches_nothing(cases.drop_last(), opts, h, i);
    }
}

/// Every case that is asked for is accounted for once in every language: it is
/// run or reported as skipped, and none goes missing.
pub proof fn law_every_case_is_accounted_for(
    case: CaseV,
    at: nat,
    opts: RunOptionsV,
    h: Seq<EntityV>,
    i: int,
)
    requires
        is_selected(case.id, opts.only),
        !opts.dry_run,
        0 <= i < opts.languages.len(),
    ensures
        case_steps(case, at, opts, h).len() == opts.languages.len(),
        match case_steps(case, at, opts, h)[i] {
            StepV::Turn { case: c, target, said, language, times } => c == at && language
                == opts.languages[i] && times >= 1,
            StepV::Skip(r) => r.id == case.id && r.language == opts.languages[i]
                && r.skipped_because is Some,
            StepV::Say(_) => false,
        },
{
}

/// A case that is not asked for leaves no trace.
pub proof fn law_what_is_not_asked_for_is_not_run(
    case: CaseV,
    at: nat,
    opts: RunOptionsV,
    h: Seq<EntityV>,
)
    requires
        !is_selected(case.id, opts.only),
    ensures
        case_steps(case, at, opts, h).len() == 0,
{
}

/// The same device is used in every language, or the cells could not be held
/// against each other.
pub proof fn law_one_device_in_every_language(
    case: CaseV,
    at: nat,
    opts: RunOptionsV,
    h: Seq<EntityV>,
    i: int,
    j: int,
)
    requires
        0 <= i < case_steps(case, at, opts, h).len(),
        0 <= j < case_steps(case, at, opts, h).len(),
        case_steps(case, at, opts, h)[i] is Turn,
        case_steps(case, at, opts, h)[j] is Turn,
    ensures
        case_steps(case, at, opts, h)[i]->target == case_steps(case, at, opts, h)[j]->target,
{
}

/// The shareable half names nothing: it is the same whatever the device was
/// called, whatever was said and whatever came back, so long as the scores, the
/// number of calls and the time are.
pub proof fn law_a_report_names_nothing(
    case: CaseV,
    lang: Seq<char>,
    a: TurnObservationV,
    b: TurnObservationV,
    x: JudgementV,
    y: JudgementV,
)
    requires
        a.calls.len() == b.calls.len(),
        a.elapsed_ms == b.elapsed_ms,
        x == (JudgementV { notes: x.notes, ..y }),
    ensures
        report_of(case, lang, a, x) == report_of(case, lang, b, y),
{
}

/// A count never says more than the file holds.
pub proof fn law_no_more_is_selected_than_there_is(cases: Seq<CaseV>, only: Option<Seq<char>>)
    ensures
        selected_count(cases, only) <= cases.len(),
        only is None ==> selected_count(cases, only) == cases.len(),
    decreases cases.len(),
{
    if cases.len() > 0 {
        law_no_more_is_selected_than_there_is(cases.drop_last(), only);
    }
}

/// A case is selected where nothing was asked for in particular, and where its
/// name holds what was asked for.
pub proof fn law_what_is_selected(id: Seq<char>, f: Seq<char>)
    ensures
        is_selected(id, None),
        is_selected(id, Some(f)) <==> text::has_sub(id, f),
{
}

/// The selected cases are counted one by one.
pub proof fn law_the_selected_are_counted(
    a: Seq<CaseV>,
    b: Seq<CaseV>,
    one: CaseV,
    only: Option<Seq<char>>,
)
    ensures
        selected_count(a + b, only) == selected_count(a, only) + selected_count(b, only),
        selected_count(seq![one], only) == (if is_selected(one.id, only) {
            1nat
        } else {
            0nat
        }),
    decreases b.len(),
{
    assert(seq![one].drop_last().len() == 0);
    assert(selected_count(seq![one].drop_last(), only) == 0);
    if b.len() == 0 {
        assert(a + b == a);
    } else {
        law_the_selected_are_counted(a, b.drop_last(), one, only);
        assert((a + b).drop_last() == a + b.drop_last());
        assert((a + b).last() == b.last());
    }
}

/// What is said in a language is the first that was written in it.
pub proof fn law_what_is_said_is_the_first_written(
    utterances: Seq<(Seq<char>, Seq<char>)>,
    lang: Seq<char>,
    i: int,
)
    ensures
        0 <= i < utterances.len() && utterances[i].0 == lang && (forall|j: int|
            0 <= j < i ==> (#[trigger] utterances[j]).0 != lang) ==> utterance_in(utterances, lang)
            == Some(utterances[i].1),
        (forall|j: int| 0 <= j < utterances.len() ==> (#[trigger] utterances[j]).0 != lang)
            ==> utterance_in(utterances, lang) is None,
    decreases utterances.len(),
{
    if utterances.len() > 0 {
        let t = utterances.drop_first();
        law_what_is_said_is_the_first_written(t, lang, i - 1);
        if 0 < i < utterances.len() && (forall|j: int|
            0 <= j < i ==> (#[trigger] utterances[j]).0 != lang) {
            assert(utterances[0].0 != lang);
            assert(t[i - 1] == utterances[i]);
            assert forall|j: int| 0 <= j < i - 1 implies (#[trigger] t[j]).0 != lang by {
                assert(t[j] == utterances[j + 1]);
            }
        }
        if forall|j: int| 0 <= j < utterances.len() ==> (#[trigger] utterances[j]).0 != lang {
            assert(utterances[0].0 != lang);
            assert forall|j: int| 0 <= j < t.len() implies (#[trigger] t[j]).0 != lang by {
                assert(t[j] == utterances[j + 1]);
            }
        }
    }
}

/// A case that finds its target is said in each language in turn, with the
/// device and the room named, as often as asked for and once at least; a language
/// nothing was written in is skipped and says so, and a dry run only tells.
pub proof fn law_a_case_is_said_in_each_language(
    case: CaseV,
    at: nat,
    opts: RunOptionsV,
    h: Seq<EntityV>,
    t: TargetV,
    i: int,
)
    requires
        is_selected(case.id, opts.only),
        requirement::resolved(case.requires, h) == Ok::<TargetV, Seq<char>>(t),
        0 <= i < opts.languages.len(),
    ensures
        ({
            let lang = opts.languages[i];
            let steps = case_steps(case, at, opts, h);
            let template = utterance_in(case.utterances, lang);
            &&& steps.len() == opts.languages.len()
            &&& template is None ==> (steps[i] matches StepV::Skip(r) && r.id == case.id && r.class
                == case.class && r.language == lang && r.verdict == Verdict::Skipped && r.calls == 0
                && r.elapsed_ms == 0)
            &&& template is Some && opts.dry_run ==> steps[i] is Say
            &&& template is Some && !opts.dry_run ==> steps[i] == (StepV::Turn {
                case: at,
                target: t,
                said: fixture::rendered(template->0, t.device.name, t.area),
                language: lang,
                times: if opts.repeats == 0 {
                    1
                } else {
                    opts.repeats
                },
            })
        }),
{
}

/// A case that finds no target is skipped in every language, and each skip says
/// why.
pub proof fn law_a_case_without_a_target_is_skipped(
    case: CaseV,
    at: nat,
    opts: RunOptionsV,
    h: Seq<EntityV>,
    why: Seq<char>,
    i: int,
)
    requires
        is_selected(case.id, opts.only),
        requirement::resolved(case.requires, h) == Err::<TargetV, Seq<char>>(why),
        0 <= i < opts.languages.len(),
    ensures
        ({
            let steps = case_steps(case, at, opts, h);
            let first = if opts.dry_run {
                1int
            } else {
                0int
            };
            &&& steps.len() == first + opts.languages.len()
            &&& opts.dry_run ==> steps[0] is Say
            &&& steps[first + i] matches StepV::Skip(r) && r.id == case.id && r.class == case.class
                && r.language == opts.languages[i] && r.verdict == Verdict::Skipped
                && r.skipped_because == Some(why) && !r.outcome_correct && !r.routed_first_try
                && r.bystander_held is None && r.reply_truthful is None && r.reply_language_matched
                is None && r.calls == 0 && r.elapsed_ms == 0
        }),
{
}

/// The cases are gone through in order, and each step knows which case it is of.
pub proof fn law_cases_are_gone_through_in_order(
    cases: Seq<CaseV>,
    c: CaseV,
    opts: RunOptionsV,
    h: Seq<EntityV>,
)
    ensures
        all_steps(cases.push(c), opts, h) == all_steps(cases, opts, h) + case_steps(
            c,
            cases.len(),
            opts,
            h,
        ),
        all_steps(Seq::empty(), opts, h).len() == 0,
{
    assert(cases.push(c).drop_last() == cases);
}

/// A report says of a turn what was judged of it, how many calls it made and how
/// long it took, and that it was not skipped.
pub proof fn law_a_report_says_what_was_judged(
    case: CaseV,
    lang: Seq<char>,
    obs: TurnObservationV,
    j: JudgementV,
)
    ensures
        ({
            let r = report_of(case, lang, obs, j);
            &&& r.id == case.id && r.class == case.class && r.language == lang
            &&& r.verdict == j.verdict
            &&& r.routed_first_try == j.routed_first_try
            &&& r.outcome_correct == j.outcome_correct
            &&& r.bystander_held == j.bystander_held
            &&& r.reply_truthful == j.reply_truthful
            &&& r.reply_language_matched == j.reply_language_matched
            &&& r.calls == obs.calls.len()
            &&& r.elapsed_ms == obs.elapsed_ms
            &&& r.skipped_because is None
        }),
{
}

/// The details of a turn name what a report does not: what was said, the device,
/// the group, the room, the bystander, the reply, each call in order, and the
/// notes.
pub proof fn law_the_details_name_everything(
    case: CaseV,
    target: TargetV,
    said: Seq<char>,
    lang: Seq<char>,
    obs: TurnObservationV,
    j: JudgementV,
    i: int,
)
    ensures
        ({
            let d = detail_of(case, target, said, lang, obs, j);
            &&& d.id == case.id && d.language == lang && d.said == said
            &&& d.device == target.device.name && d.area == target.area
            &&& d.group.len() == target.group.len()
            &&& 0 <= i < target.group.len() ==> d.group[i] == target.group[i].name
            &&& d.bystander is Some <==> target.bystander is Some
            &&& target.bystander matches Some(b) ==> d.bystander == Some(b.name)
            &&& d.reply == obs.reply && d.notes == j.notes
            &&& d.calls.len() == obs.calls.len()
            &&& 0 <= i < obs.calls.len() ==> d.calls[i].name == obs.calls[i].name
                && d.calls[i].arguments == obs.calls[i].arguments && d.calls[i].outcome
                == obs.calls[i].outcome
        }),
{
}

/// A dry run tells what would be done: a case that is skipped, with why; and one
/// that is not, with its language, what would be said, what it is aimed at and
/// what must not move. A case's name stands in a column of its own.
pub proof fn law_what_a_dry_run_tells(
    id: Seq<char>,
    why: Seq<char>,
    lang: Seq<char>,
    said: Seq<char>,
    t: TargetV,
)
    ensures
        skip_line(id, why) == "  "@ + text::padded(id, 34) + " "@ + "skipped — "@ + why,
        dry_line(id, lang, said, t) == "  "@ + text::padded(id, 34) + " "@ + lang + "  \""@ + said
            + "\"\n      "@ + aim_words(t),
        t.group.len() <= 1 && t.bystander is None ==> aim_words(t) == "device: "@ + t.device.name,
        t.group.len() > 1 && t.bystander is None ==> aim_words(t) == text::decimal(t.group.len())
            + " devices: "@ + text::joined(requirement::leading_names(t.group), ", "@),
        t.bystander matches Some(b) ==> aim_words(t) == aim_words(TargetV { bystander: None, ..t })
            + "   must not move: "@ + b.name,
{
    let none = Seq::<char>::empty();
    if t.bystander is None {
        assert(("device: "@ + t.device.name) + none == "device: "@ + t.device.name);
        let many = text::decimal(t.group.len()) + " devices: "@ + text::joined(
            requirement::leading_names(t.group),
            ", "@,
        );
        assert(many + none == many);
    } else {
        let bare = aim_words(TargetV { bystander: None, ..t });
        let first = if t.group.len() > 1 {
            text::decimal(t.group.len()) + " devices: "@ + text::joined(
                requirement::leading_names(t.group),
                ", "@,
            )
        } else {
            "device: "@ + t.device.name
        };
        assert(bare == first + none);
        assert(first + none == first);
        let b = t.bystander->0;
        assert(aim_words(t) == first + ("   must not move: "@ + b.name));
        assert(first + ("   must not move: "@ + b.name) == first + "   must not move: "@ + b.name);
    }
}

/// What is dry-run is told in the line for it, and what is skipped says why.
pub proof fn law_each_step_says_its_line(
    case: CaseV,
    at: nat,
    t: TargetV,
    opts: RunOptionsV,
    lang: Seq<char>,
    template: Seq<char>,
)
    ensures
        utterance_in(case.utterances, lang) is None ==> (language_step(
            case,
            at,
            t,
            opts,
            lang,
        ) matches StepV::Skip(r) && r.skipped_because == Some(
            "no utterance written in this language"@,
        )),
        utterance_in(case.utterances, lang) == Some(template) && opts.dry_run ==> language_step(
            case,
            at,
            t,
            opts,
            lang,
        ) == StepV::Say(
            dry_line(
                case.id,
                lang,
                fixture::rendered(template, t.device.name, t.area),
                t,
            ),
        ),
{
}

/// A home that could not be put back, and one that described nothing, stop the
/// run in words that say so.
pub proof fn law_what_stops_a_run(device: Seq<char>, id: Seq<char>, why: Seq<char>)
    ensures
        not_restored(device, id, why) == "could not put "@ + device
            + " back the way it was after `"@ + id + "`: "@ + why
            + ". Stopping — the rest of the suite would be measuring a home this run has already changed."@,
        empty_house()
            == "the server described no devices — the suite would skip everything and report a perfect score against an empty house"@,
{
}

} // verus!
