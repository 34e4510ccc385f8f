//! The ladder a call climbs, from being asked for to being known to have
//! worked.
//!
//! The one rule it exists to enforce is honesty about outcomes. A server can
//! answer cheerfully and have done nothing at all, so the wording of every
//! summary is capped by how well the effect could actually be checked.
//!
//! Sending and reading are somebody else's work. A call is taken through three
//! decisions: [`begin`] says what to send, [`after_reply`] says whether the
//! answer settles it or the home has to be read, and [`after_look`] says what
//! the reading settles.

use vstd::prelude::*;

use super::arguments;
use super::arguments::{prepare_args, HouseFacts, HouseFactsV};
use super::call;
use super::call::{RunOutcome, ToolCall, ToolCallV, ToolOutcome, ToolOutcomeV};
use super::vendor;
use super::vendor::{
    copy_targets, for_result, Admission, AdmissionV, Target, TargetV, Vendor, Verdict,
};
use crate::json;
use crate::text;
use crate::text::{first_chars, join, own, same, trim};
use crate::value::{Json, JsonV};

verus! {

/// How the effect of a tool can be checked.
#[derive(Debug, Clone, Copy, PartialEq, Eq, Structural)]
pub enum VerifyClass {
    /// Another tool reads the state this one should leave behind.
    PostCondition,
    /// Something short of that.
    Other,
    /// Nothing observes the effect.
    Unobserved,
}

/// Everything needed to judge one stored tool.
pub struct Runnable {
    pub verify: VerifyClass,
    /// The tool whose output observes this one's effect, when there is one.
    pub readback: Option<String>,
    /// What the server said it accepts, kept so an obviously wrong argument can
    /// be caught here rather than costing a round trip.
    pub schema: Json,
    /// Which server offers it. Two servers may publish the same tool name, so a
    /// run has to be filed against the right one.
    pub source: String,
}

/// What a [`Runnable`] says.
pub struct RunnableV {
    pub verify: VerifyClass,
    pub readback: Option<Seq<char>>,
    pub schema: JsonV,
    pub source: Seq<char>,
}

impl View for Runnable {
    type V = RunnableV;

    open spec fn view(&self) -> RunnableV {
        RunnableV {
            verify: self.verify,
            readback: text::opt_text(self.readback),
            schema: self.schema@,
            source: self.source@,
        }
    }
}

/// What a list of tools says, each under its name.
pub open spec fn tools_say(v: Seq<(String, Runnable)>) -> Seq<(Seq<char>, RunnableV)> {
    v.map_values(|p: (String, Runnable)| (p.0@, p.1@))
}

/// The tool of a name: the last that was listed under it.
pub open spec fn tool_named(v: Seq<(Seq<char>, RunnableV)>, name: Seq<char>) -> Option<RunnableV>
    decreases v.len(),
{
    if v.len() == 0 {
        None
    } else if v.last().0 == name {
        Some(v.last().1)
    } else {
        tool_named(v.drop_last(), name)
    }
}

/// The tool of a name.
pub fn find_tool<'a>(tools: &'a Vec<(String, Runnable)>, name: &str) -> (r: Option<&'a Runnable>)
    ensures
        match r {
            Some(t) => tool_named(tools_say(tools@), name@) == Some(t@),
            None => tool_named(tools_say(tools@), name@) is None,
        },
{
    let ghost all = tools_say(tools@);
    let mut i: usize = tools.len();
    assert(all.take(i as int) == all);
    while i > 0
        invariant
            i <= tools@.len(),
            all == tools_say(tools@),
            tool_named(all, name@) == tool_named(all.take(i as int), name@),
        decreases i,
    {
        i = i - 1;
        proof {
            assert(all.take(i + 1).drop_last() == all.take(i as int));
            assert(all.take(i + 1).last() == (tools@[i as int].0@, tools@[i as int].1@));
        }
        if same(&tools[i].0, name) {
            return Some(&tools[i].1);
        }
    }
    None
}

// ---------------------------------------------------------------------------
// Wording
// ---------------------------------------------------------------------------

/// Appended to a failure where nothing in the world moved.
///
/// Deliberately not a promise: a second failure is a real answer, and saying so
/// beats a third attempt.
pub const RETRY_INVITATION: &'static str = "Nothing was changed. If you can tell from this what was wrong with the request, correct it and call the tool once more; otherwise tell the user plainly what went wrong.";

/// Appended to a failure where part of the request may already have landed.
///
/// Only offered where running the tool again is the same request as running it
/// once, so a repeat cannot double an effect on the parts that did work.
pub const RETRY_THE_REST: &'static str = "If you can tell from this what was wrong with the request, correct it and call the tool once more for what was missed; otherwise tell the user plainly which parts did not happen.";

/// How many characters of a server's answer are passed on.
pub const BRIEF_CHARS: usize = 2000;

/// A text cut to `n` characters, visibly.
pub open spec fn clipped(s: Seq<char>, n: nat) -> Seq<char> {
    if s.len() <= n {
        s
    } else {
        s.take(n as int) + "…"@
    }
}

/// Cut a text to `n` characters, visibly.
pub fn clip(s: &str, n: usize) -> (r: String)
    ensures
        r@ == clipped(s@, n as nat),
{
    if s.unicode_len() <= n {
        own(s)
    } else {
        let mut out = first_chars(s, n);
        out.append("…");
        out
    }
}

/// A server's answer, short enough to pass on.
pub open spec fn in_brief(s: Seq<char>) -> Seq<char> {
    let t = text::trimmed(s);
    if t.len() == 0 {
        "Done."@
    } else {
        clipped(t, BRIEF_CHARS as nat)
    }
}

/// A server's answer, short enough to pass on.
///
/// The cap is generous, because the part a server puts last is often the part
/// that says what went wrong. Trimming is visible, so a truncated result is
/// never mistaken for a complete one.
pub fn brief(s: &str) -> (r: String)
    ensures
        r@ == in_brief(s@),
{
    let t = trim(s);
    if t.as_str().is_empty() {
        own("Done.")
    } else {
        clip(&t, BRIEF_CHARS)
    }
}

/// Readings, each as half a sentence.
pub open spec fn readings_worded(readings: Seq<(Seq<char>, Seq<char>)>) -> Seq<Seq<char>> {
    readings.map_values(|p: (Seq<char>, Seq<char>)| p.0 + " is "@ + p.1)
}

/// What the house reads, as one sentence to append to what the model is told.
pub open spec fn house_sentence(readings: Seq<(Seq<char>, Seq<char>)>) -> Seq<char> {
    if readings.len() == 0 {
        Seq::empty()
    } else {
        " Reading the home back afterwards: "@ + text::joined(readings_worded(readings), ", "@)
            + ". Tell the user what the home actually says, not what was asked for."@
    }
}

/// What the house reads, as one sentence to hand back to the model. Empty when
/// there is nothing to report.
pub fn state_of_the_house(readings: &Vec<(String, String)>) -> (r: String)
    ensures
        r@ == house_sentence(vendor::readings_say(readings@)),
{
    let ghost all = vendor::readings_say(readings@);
    if readings.len() == 0 {
        let none = String::new();
        assert(none@ =~= Seq::empty());
        return none;
    }
    let mut parts: Vec<String> = Vec::new();
    for i in 0..readings.len()
        invariant
            parts@.len() == i,
            forall|k: int|
                0 <= k < i ==> parts@[k]@ == readings@[k].0@ + " is "@ + readings@[k].1@,
    {
        let mut part = own(&readings[i].0);
        part.append(" is ");
        part.append(&readings[i].1);
        parts.push(part);
    }
    assert(text::texts(parts@) =~= readings_worded(all));
    let mut out = own(" Reading the home back afterwards: ");
    let list = join(&parts, ", ");
    out.append(&list);
    out.append(". Tell the user what the home actually says, not what was asked for.");
    out
}

// ---------------------------------------------------------------------------
// What one call did
// ---------------------------------------------------------------------------

/// What one call did, and how strongly that can be said.
pub struct Ran {
    pub out: ToolOutcome,
    pub how: RunOutcome,
    /// The individual things in the home this call reached, when the server
    /// names them.
    pub targets: Vec<Target>,
    /// The arguments as they actually went to the server. This, and not what
    /// the model wrote, is what a replay would have to send.
    pub sent: String,
}

/// What a [`Ran`] says.
pub struct RanV {
    pub out: ToolOutcomeV,
    pub how: RunOutcome,
    pub targets: Seq<TargetV>,
    pub sent: Seq<char>,
}

impl View for Ran {
    type V = RanV;

    open spec fn view(&self) -> RanV {
        RanV {
            out: self.out@,
            how: self.how,
            targets: vendor::targets_say(self.targets@),
            sent: self.sent@,
        }
    }
}

/// A call that never reached the world, so a second go cannot double anything.
pub open spec fn nothing_happened(sent: Seq<char>, why: Seq<char>) -> RanV {
    RanV {
        out: ToolOutcomeV {
            summary: why + " "@ + RETRY_INVITATION@,
            failed: true,
            retryable: true,
        },
        how: RunOutcome::Failed,
        targets: Seq::empty(),
        sent,
    }
}

/// A call after which something may already have moved, so that only an end
/// state may be asked for again.
pub open spec fn not_as_asked(
    repeatable: bool,
    targets: Seq<TargetV>,
    sent: Seq<char>,
    why: Seq<char>,
) -> RanV {
    RanV {
        out: ToolOutcomeV {
            summary: if repeatable {
                why + " "@ + RETRY_THE_REST@
            } else {
                why
            },
            failed: true,
            retryable: repeatable,
        },
        how: RunOutcome::Failed,
        targets,
        sent,
    }
}

/// A call that worked as far as can be told.
pub open spec fn as_asked(
    how: RunOutcome,
    targets: Seq<TargetV>,
    sent: Seq<char>,
    summary: Seq<char>,
) -> RanV {
    RanV { out: call::worked_with(summary), how, targets, sent }
}

fn ran_nothing(sent: String, why: String) -> (r: Ran)
    ensures
        r@ == nothing_happened(sent@, why@),
{
    let mut summary = why;
    summary.append(" ");
    summary.append(RETRY_INVITATION);
    let none: Vec<Target> = Vec::new();
    assert(vendor::targets_say(none@) =~= Seq::empty());
    Ran {
        out: ToolOutcome { summary, failed: true, retryable: true },
        how: RunOutcome::Failed,
        targets: none,
        sent,
    }
}

fn ran_badly(repeatable: bool, targets: &Vec<Target>, sent: &str, why: String) -> (r: Ran)
    ensures
        r@ == not_as_asked(repeatable, vendor::targets_say(targets@), sent@, why@),
{
    let mut summary = why;
    if repeatable {
        summary.append(" ");
        summary.append(RETRY_THE_REST);
    }
    Ran {
        out: ToolOutcome { summary, failed: true, retryable: repeatable },
        how: RunOutcome::Failed,
        targets: copy_targets(targets),
        sent: own(sent),
    }
}

fn ran_well(how: RunOutcome, targets: &Vec<Target>, sent: &str, summary: String) -> (r: Ran)
    ensures
        r@ == as_asked(how, vendor::targets_say(targets@), sent@, summary@),
{
    Ran {
        out: ToolOutcome::worked(summary),
        how,
        targets: copy_targets(targets),
        sent: own(sent),
    }
}

// ---------------------------------------------------------------------------
// Before anything is sent
// ---------------------------------------------------------------------------

/// What to do about a call the model asked for.
pub enum Begun {
    /// Send these arguments, in this text.
    Send { args: Json, sent: String },
    /// Nothing is sent.
    Done(Ran),
}

/// What a [`Begun`] says.
pub enum BegunV {
    Send { args: JsonV, sent: Seq<char> },
    Done(RanV),
}

impl View for Begun {
    type V = BegunV;

    open spec fn view(&self) -> BegunV {
        match self {
            Begun::Send { args, sent } => BegunV::Send { args: args@, sent: sent@ },
            Begun::Done(ran) => BegunV::Done(ran@),
        }
    }
}

/// A call as it begins: refused where nobody offers the tool, kept at home where
/// the schema objects, and sent otherwise.
pub open spec fn begun(
    tools: Seq<(Seq<char>, RunnableV)>,
    facts: HouseFactsV,
    call: ToolCallV,
    parsed: Option<JsonV>,
) -> BegunV {
    match tool_named(tools, call.name) {
        None => BegunV::Done(
            nothing_happened(
                call.arguments,
                "There is no tool called "@ + call.name + "."@,
            ),
        ),
        Some(tool) => {
            let args = arguments::prepared(facts, arguments::written_args(parsed));
            match arguments::noted(arguments::objections(tool.schema, args)) {
                Some(c) => BegunV::Done(
                    nothing_happened(json::compact(args), arguments::not_sent(call.name, c)),
                ),
                None => BegunV::Send { args, sent: json::compact(args) },
            }
        },
    }
}

/// Decide what to send for a call the model asked for.
pub fn begin(tools: &Vec<(String, Runnable)>, house: &HouseFacts, call: &ToolCall) -> (r: Begun)
    ensures
        r@ == begun(tools_say(tools@), house@, call@, json::json_value(call@.arguments)),
{
    match find_tool(tools, &call.name) {
        None => {
            let mut why = own("There is no tool called ");
            why.append(&call.name);
            why.append(".");
            Begun::Done(ran_nothing(own(&call.arguments), why))
        },
        Some(tool) => match prepare_args(&tool.schema, house, call) {
            Ok(args) => {
                let sent = args.to_text();
                Begun::Send { args, sent }
            },
            Err((sent, complaint)) => Begun::Done(ran_nothing(sent, complaint)),
        },
    }
}

// ---------------------------------------------------------------------------
// After the server answered
// ---------------------------------------------------------------------------

/// How a server answered a call.
pub enum Reply {
    /// It was never reached; the words say why.
    Unreached(String),
    /// It objected, in these words.
    Objected(String),
    /// It raised no error and said this.
    Answered(String),
}

/// What a [`Reply`] says.
pub enum ReplyV {
    Unreached(Seq<char>),
    Objected(Seq<char>),
    Answered(Seq<char>),
}

impl View for Reply {
    type V = ReplyV;

    open spec fn view(&self) -> ReplyV {
        match self {
            Reply::Unreached(s) => ReplyV::Unreached(s@),
            Reply::Objected(s) => ReplyV::Objected(s@),
            Reply::Answered(s) => ReplyV::Answered(s@),
        }
    }
}

/// What an answer settles.
pub enum Next {
    /// The call is over.
    Done(Ran),
    /// The home has to be read with this tool.
    Look { readback: String },
}

/// What a [`Next`] says.
pub enum NextV {
    Done(RanV),
    Look { readback: Seq<char> },
}

impl View for Next {
    type V = NextV;

    open spec fn view(&self) -> NextV {
        match self {
            Next::Done(ran) => NextV::Done(ran@),
            Next::Look { readback } => NextV::Look { readback: readback@ },
        }
    }
}

/// The sentence for a half-done command, naming what was missed where the server
/// does.
pub open spec fn partly_sentence(tool: Seq<char>, failed: Seq<Seq<char>>) -> Seq<char> {
    if failed.len() == 0 {
        tool
            + " worked for some devices but not for all of them. Tell the user that some did not respond, and do not claim the whole request succeeded."@
    } else {
        tool + " worked for some devices but not for these: "@ + text::joined(failed, ", "@)
            + ". Tell the user which ones did not respond, and do not claim the whole request succeeded."@
    }
}

/// What an error-free answer settles, given what the vendor makes of it.
///
/// The home is read only where a tool observes the effect and the server named
/// something it touched. Where nothing observes it, "it was sent" is the
/// strongest true statement available.
pub open spec fn weighed(
    tool: RunnableV,
    name: Seq<char>,
    sent: Seq<char>,
    answer: Seq<char>,
    repeatable: bool,
    admission: Option<AdmissionV>,
    touched: Seq<TargetV>,
) -> NextV {
    match admission {
        Some(AdmissionV::NothingWorked) => NextV::Done(
            not_as_asked(repeatable, touched, sent, name + " did not work: "@ + in_brief(answer)),
        ),
        Some(AdmissionV::PartlyWorked { failed }) => NextV::Done(
            not_as_asked(repeatable, touched, sent, partly_sentence(name, failed)),
        ),
        _ => if tool.readback is Some && tool.verify == VerifyClass::PostCondition && touched.len()
            > 0 {
            NextV::Look { readback: tool.readback->0 }
        } else if tool.verify == VerifyClass::Unobserved {
            NextV::Done(
                as_asked(
                    RunOutcome::Sent,
                    touched,
                    sent,
                    name + " was sent. "@ + in_brief(answer),
                ),
            )
        } else {
            NextV::Done(as_asked(RunOutcome::Accepted, touched, sent, in_brief(answer)))
        },
    }
}

/// What an answer settles, given how it reads as JSON.
pub open spec fn replied(
    tool: RunnableV,
    name: Seq<char>,
    sent: Seq<char>,
    reply: ReplyV,
    parsed: Option<JsonV>,
) -> NextV {
    match reply {
        ReplyV::Unreached(e) => NextV::Done(
            nothing_happened(sent, name + " could not be run: "@ + e),
        ),
        ReplyV::Objected(t) => NextV::Done(
            nothing_happened(sent, name + " failed: "@ + in_brief(t)),
        ),
        ReplyV::Answered(t) => {
            let f = vendor::family_of(parsed);
            weighed(
                tool,
                name,
                sent,
                t,
                vendor::family_repeats(f, name),
                vendor::family_admits(f, parsed),
                vendor::family_reaches(f, parsed),
            )
        },
    }
}

/// What an error-free answer settles, given what the vendor makes of it.
pub fn weigh(
    tool: &Runnable,
    name: &str,
    sent: &str,
    answer: &str,
    repeatable: bool,
    admission: &Option<Admission>,
    touched: &Vec<Target>,
) -> (r: Next)
    ensures
        r@ == weighed(
            tool@,
            name@,
            sent@,
            answer@,
            repeatable,
            vendor::opt_admission(*admission),
            vendor::targets_say(touched@),
        ),
{
    let ghost all = vendor::targets_say(touched@);
    assert(all.len() == touched@.len());
    match admission {
        Some(Admission::NothingWorked) => {
            let mut why = own(name);
            why.append(" did not work: ");
            let words = brief(answer);
            why.append(&words);
            return Next::Done(ran_badly(repeatable, touched, sent, why));
        },
        Some(Admission::PartlyWorked { failed }) => {
            let mut why = own(name);
            assert(text::texts(failed@).len() == failed@.len());
            if failed.len() == 0 {
                why.append(
                    " worked for some devices but not for all of them. Tell the user that some did not respond, and do not claim the whole request succeeded.",
                );
            } else {
                why.append(" worked for some devices but not for these: ");
                let list = join(failed, ", ");
                why.append(&list);
                why.append(
                    ". Tell the user which ones did not respond, and do not claim the whole request succeeded.",
                );
            }
            return Next::Done(ran_badly(repeatable, touched, sent, why));
        },
        _ => {},
    }
    match (&tool.readback, tool.verify) {
        (Some(readback), VerifyClass::PostCondition) if touched.len() > 0 => Next::Look {
            readback: own(readback),
        },
        (_, VerifyClass::Unobserved) => {
            let mut summary = own(name);
            summary.append(" was sent. ");
            let words = brief(answer);
            summary.append(&words);
            Next::Done(ran_well(RunOutcome::Sent, touched, sent, summary))
        },
        _ => Next::Done(ran_well(RunOutcome::Accepted, touched, sent, brief(answer))),
    }
}

/// Decide what a server's answer settles.
pub fn after_reply(tool: &Runnable, call: &ToolCall, sent: &str, reply: &Reply) -> (r: Next)
    ensures
        r@ == replied(
            tool@,
            call@.name,
            sent@,
            reply@,
            match reply@ {
                ReplyV::Answered(t) => json::json_value(t),
                _ => None,
            },
        ),
{
    match reply {
        Reply::Unreached(e) => {
            let mut why = own(&call.name);
            why.append(" could not be run: ");
            why.append(e);
            Next::Done(ran_nothing(own(sent), why))
        },
        Reply::Objected(t) => {
            let mut why = own(&call.name);
            why.append(" failed: ");
            let words = brief(t);
            why.append(&words);
            Next::Done(ran_nothing(own(sent), why))
        },
        Reply::Answered(t) => {
            let vendor = for_result(t);
            let admission = vendor.admission(t);
            let touched = vendor.targets(t);
            weigh(
                tool,
                &call.name,
                sent,
                t,
                vendor.repeatable(&call.name),
                &admission,
                &touched,
            )
        },
    }
}

// ---------------------------------------------------------------------------
// After the home was read
// ---------------------------------------------------------------------------

/// What a reading of the home showed: what the vendor makes of it, and what it
/// plainly says. Both are kept because they are different claims.
pub struct Looked {
    pub verdict: Option<Verdict>,
    pub readings: Vec<(String, String)>,
}

/// The names of the devices that landed.
pub open spec fn landed_names(targets: Seq<TargetV>) -> Seq<Seq<char>>
    decreases targets.len(),
{
    if targets.len() == 0 {
        Seq::empty()
    } else if targets.last().landed {
        landed_names(targets.drop_last()).push(targets.last().name)
    } else {
        landed_names(targets.drop_last())
    }
}

/// The devices the server said it reached, and which are therefore worth
/// looking up.
pub fn claimed(targets: &Vec<Target>) -> (r: Vec<String>)
    ensures
        text::texts(r@) == landed_names(vendor::targets_say(targets@)),
{
    let ghost all = vendor::targets_say(targets@);
    let mut out: Vec<String> = Vec::new();
    assert(text::texts(out@) =~= landed_names(all.take(0)));
    for i in 0..targets.len()
        invariant
            all == vendor::targets_say(targets@),
            text::texts(out@) == landed_names(all.take(i as int)),
    {
        let ghost before = text::texts(out@);
        proof {
            assert(all.take(i + 1).drop_last() == all.take(i as int));
            assert(all[i as int] == targets@[i as int]@);
        }
        if targets[i].landed {
            out.push(targets[i].name.clone());
            assert(text::texts(out@) =~= before.push(all[i as int].name));
        }
    }
    assert(all.take(all.len() as int) == all);
    out
}

/// The verdict on a reading, given how the answer reads as JSON and what the
/// reading says. Not being able to look is not having looked.
pub open spec fn verdict_of(
    name: Seq<char>,
    parsed: Option<JsonV>,
    live: Option<Seq<char>>,
) -> Option<Verdict> {
    match live {
        Some(l) => vendor::family_confirms(vendor::family_of(parsed), name, parsed, l),
        None => None,
    }
}

/// What a reading says of the devices the server claimed.
pub open spec fn readings_of(parsed: Option<JsonV>, live: Option<Seq<char>>) -> Seq<
    (Seq<char>, Seq<char>),
> {
    let f = vendor::family_of(parsed);
    match live {
        Some(l) => vendor::family_reads(f, l, landed_names(vendor::family_reaches(f, parsed))),
        None => Seq::empty(),
    }
}

/// What a text read back says, where one arrived.
pub open spec fn live_of(readback: Option<Seq<char>>) -> Option<Seq<char>> {
    match readback {
        Some(t) => Some(vendor::live_text(json::json_value(t), t)),
        None => None,
    }
}

/// Ask the vendor what a reading of the home shows.
///
/// A readback that fails to arrive yields nothing: reporting a working command
/// as broken because a second request timed out would be its own bug.
pub fn confirm(call: &ToolCall, answer: &str, readback: Option<&str>) -> (r: Looked)
    ensures
        r.verdict == verdict_of(
            call@.name,
            json::json_value(answer@),
            live_of(text::opt_str(readback)),
        ),
        vendor::readings_say(r.readings@) == readings_of(
            json::json_value(answer@),
            live_of(text::opt_str(readback)),
        ),
{
    match readback {
        Some(back) => {
            let vendor = for_result(answer);
            let verdict = vendor.confirms(call, answer, back);
            let touched = vendor.targets(answer);
            let names = claimed(&touched);
            let readings = vendor.readings(back, &names);
            Looked { verdict, readings }
        },
        None => {
            let none: Vec<(String, String)> = Vec::new();
            assert(vendor::readings_say(none@) =~= Seq::empty());
            Looked { verdict: None, readings: none }
        },
    }
}

/// What a look settles.
pub open spec fn concluded(
    name: Seq<char>,
    sent: Seq<char>,
    answer: Seq<char>,
    repeatable: bool,
    touched: Seq<TargetV>,
    verdict: Option<Verdict>,
    readings: Seq<(Seq<char>, Seq<char>)>,
) -> RanV {
    match verdict {
        Some(Verdict::Contradicted) => not_as_asked(
            repeatable,
            touched,
            sent,
            name + " was accepted, but the devices are not in the state you asked for."@
                + house_sentence(readings),
        ),
        Some(Verdict::Confirmed) => as_asked(RunOutcome::Confirmed, touched, sent, in_brief(answer)),
        None => as_asked(
            RunOutcome::Accepted,
            touched,
            sent,
            in_brief(answer) + house_sentence(readings),
        ),
    }
}

/// What a look settles, given what it showed.
pub fn conclude(
    name: &str,
    sent: &str,
    answer: &str,
    repeatable: bool,
    touched: &Vec<Target>,
    looked: &Looked,
) -> (r: Ran)
    ensures
        r@ == concluded(
            name@,
            sent@,
            answer@,
            repeatable,
            vendor::targets_say(touched@),
            looked.verdict,
            vendor::readings_say(looked.readings@),
        ),
{
    let reads = state_of_the_house(&looked.readings);
    match looked.verdict {
        Some(Verdict::Contradicted) => {
            let mut why = own(name);
            why.append(" was accepted, but the devices are not in the state you asked for.");
            why.append(&reads);
            ran_badly(repeatable, touched, sent, why)
        },
        Some(Verdict::Confirmed) => ran_well(RunOutcome::Confirmed, touched, sent, brief(answer)),
        None => {
            let mut summary = brief(answer);
            summary.append(&reads);
            ran_well(RunOutcome::Accepted, touched, sent, summary)
        },
    }
}

/// A call after the home was read, given how the answer reads as JSON and what
/// the reading says.
pub open spec fn looked_at(
    name: Seq<char>,
    sent: Seq<char>,
    answer: Seq<char>,
    parsed: Option<JsonV>,
    live: Option<Seq<char>>,
) -> RanV {
    let f = vendor::family_of(parsed);
    concluded(
        name,
        sent,
        answer,
        vendor::family_repeats(f, name),
        vendor::family_reaches(f, parsed),
        verdict_of(name, parsed, live),
        readings_of(parsed, live),
    )
}

/// Decide what a reading of the home settles. `readback` is absent where the
/// home could not be read.
pub fn after_look(call: &ToolCall, sent: &str, answer: &str, readback: Option<&str>) -> (r: Ran)
    ensures
        r@ == looked_at(
            call@.name,
            sent@,
            answer@,
            json::json_value(answer@),
            live_of(text::opt_str(readback)),
        ),
{
    let vendor = for_result(answer);
    let touched = vendor.targets(answer);
    let looked = confirm(call, answer, readback);
    conclude(&call.name, sent, answer, vendor.repeatable(&call.name), &touched, &looked)
}

// ---------------------------------------------------------------------------
// Laws
// ---------------------------------------------------------------------------

/// Whether a finished call is told honestly: it is called a failure exactly
/// where it is recorded as one, and a second attempt is only offered on a
/// failure.
pub open spec fn honest(ran: RanV) -> bool {
    &&& ran.out.failed <==> ran.how == RunOutcome::Failed
    &&& ran.out.retryable ==> ran.out.failed
}

/// However a call ends, it is told honestly.
pub proof fn law_every_end_is_honest(
    tools: Seq<(Seq<char>, RunnableV)>,
    facts: HouseFactsV,
    tool: RunnableV,
    call: ToolCallV,
    sent: Seq<char>,
    reply: ReplyV,
    answer: Seq<char>,
    parsed: Option<JsonV>,
    live: Option<Seq<char>>,
)
    ensures
        begun(tools, facts, call, parsed) matches BegunV::Done(ran) ==> honest(ran),
        replied(tool, call.name, sent, reply, parsed) matches NextV::Done(ran) ==> honest(ran),
        honest(looked_at(call.name, sent, answer, parsed, live)),
{
}

/// A call is said to be confirmed only where the home was read and agrees.
pub proof fn law_confirmed_only_when_read(
    tools: Seq<(Seq<char>, RunnableV)>,
    facts: HouseFactsV,
    tool: RunnableV,
    call: ToolCallV,
    sent: Seq<char>,
    reply: ReplyV,
    answer: Seq<char>,
    parsed: Option<JsonV>,
    live: Option<Seq<char>>,
)
    ensures
        begun(tools, facts, call, parsed) matches BegunV::Done(ran) ==> ran.how
            != RunOutcome::Confirmed,
        replied(tool, call.name, sent, reply, parsed) matches NextV::Done(ran) ==> ran.how
            != RunOutcome::Confirmed,
        looked_at(call.name, sent, answer, parsed, live).how == RunOutcome::Confirmed <==> live
            is Some && vendor::family_confirms(
            vendor::family_of(parsed),
            call.name,
            parsed,
            live->0,
        ) == Some(Verdict::Confirmed),
{
}

/// Once a server has taken a call without objecting, a second attempt is only
/// offered for a command that names an end state, so that no effect is doubled.
pub proof fn law_a_second_attempt_doubles_nothing(
    tool: RunnableV,
    name: Seq<char>,
    sent: Seq<char>,
    answer: Seq<char>,
    parsed: Option<JsonV>,
    live: Option<Seq<char>>,
)
    ensures
        replied(tool, name, sent, ReplyV::Answered(answer), parsed) matches NextV::Done(ran)
            ==> ran.out.retryable ==> vendor::desired(name) is Some,
        looked_at(name, sent, answer, parsed, live).out.retryable ==> vendor::desired(name)
            is Some,
{
}

/// A call that never reached the world — nobody was reached, or the server
/// refused it — is always offered again, and touches nothing.
pub proof fn law_nothing_moved_may_be_tried_again(
    tool: RunnableV,
    name: Seq<char>,
    sent: Seq<char>,
    reply: ReplyV,
    parsed: Option<JsonV>,
)
    requires
        !(reply is Answered),
    ensures
        replied(tool, name, sent, reply, parsed) is Done,
        replied(tool, name, sent, reply, parsed)->Done_0.out.retryable,
        replied(tool, name, sent, reply, parsed)->Done_0.how == RunOutcome::Failed,
        replied(tool, name, sent, reply, parsed)->Done_0.targets.len() == 0,
        replied(tool, name, sent, reply, parsed)->Done_0.sent == sent,
{
}

/// The devices looked up after a call are those the answer claims were
/// switched.
pub proof fn law_only_claimed_devices_are_looked_up(v: JsonV)
    ensures
        landed_names(vendor::reached_by(v)) == vendor::claimed_by(v),
{
    let good = vendor::names_under(vendor::data_of(v), "success"@);
    let bad = vendor::names_under(vendor::data_of(v), "failed"@);
    lemma_landed(good);
    lemma_not_landed(vendor::landing(good, true), bad);
}

proof fn lemma_landed(names: Seq<Seq<char>>)
    ensures
        landed_names(vendor::landing(names, true)) == names,
    decreases names.len(),
{
    if names.len() > 0 {
        lemma_landed(names.drop_last());
        assert(vendor::landing(names, true).drop_last() =~= vendor::landing(
            names.drop_last(),
            true,
        ));
        assert(names =~= names.drop_last().push(names.last()));
    } else {
        assert(names =~= Seq::empty());
    }
}

proof fn lemma_not_landed(before: Seq<TargetV>, names: Seq<Seq<char>>)
    ensures
        landed_names(before + vendor::landing(names, false)) == landed_names(before),
    decreases names.len(),
{
    let whole = before + vendor::landing(names, false);
    if names.len() > 0 {
        lemma_not_landed(before, names.drop_last());
        assert(whole.drop_last() =~= before + vendor::landing(names.drop_last(), false));
    } else {
        assert(whole =~= before);
    }
}

/// For every answer that admits no failure, a tool whose class is post-condition
/// and that has a readback tool leads to a look with that readback exactly where
/// the answer names a device it reached, whatever the tool's name and whether or
/// not it may be repeated.
pub proof fn law_a_reached_device_is_read_back(
    tool: RunnableV,
    name: Seq<char>,
    sent: Seq<char>,
    answer: Seq<char>,
    repeatable: bool,
    admission: Option<AdmissionV>,
    touched: Seq<TargetV>,
)
    requires
        admission is None || admission == Some(AdmissionV::Worked),
    ensures
        ({
            let next = weighed(tool, name, sent, answer, repeatable, admission, touched);
            &&& next is Look <==> tool.readback is Some && tool.verify
                == VerifyClass::PostCondition && touched.len() > 0
            &&& next matches NextV::Look { readback } ==> tool.readback == Some(readback)
            &&& next matches NextV::Done(ran) ==> !ran.out.failed && !ran.out.retryable
                && ran.targets == touched && ran.sent == sent && (ran.how == RunOutcome::Sent
                <==> tool.verify == VerifyClass::Unobserved) && (ran.how == RunOutcome::Accepted
                <==> tool.verify != VerifyClass::Unobserved)
        }),
{
}

/// An answer that admits a failure is never looked into: the call is told to have
/// failed, with the devices it reached, and is offered again exactly where it may
/// be repeated.
pub proof fn law_an_admitted_failure_is_told(
    tool: RunnableV,
    name: Seq<char>,
    sent: Seq<char>,
    answer: Seq<char>,
    repeatable: bool,
    admission: AdmissionV,
    touched: Seq<TargetV>,
)
    requires
        admission != AdmissionV::Worked,
    ensures
        ({
            let next = weighed(tool, name, sent, answer, repeatable, Some(admission), touched);
            &&& next matches NextV::Done(ran) && ran.out.failed && ran.out.retryable == repeatable
                && ran.how == RunOutcome::Failed && ran.targets == touched && ran.sent == sent
                && text::begins_with(ran.out.summary, name)
        }),
{
    let next = weighed(tool, name, sent, answer, repeatable, Some(admission), touched);
    let s = next->Done_0.out.summary;
    assert(s.take(name.len() as int) == name);
}

/// At the level of answers: where a server's result names devices among its
/// successes and none among its failures, a tool that can be looked up is, for
/// every name and every answer's text.
pub proof fn law_a_success_is_looked_up(
    tool: RunnableV,
    name: Seq<char>,
    sent: Seq<char>,
    answer: Seq<char>,
    v: JsonV,
    success: Seq<JsonV>,
    failed: Seq<JsonV>,
    i: int,
    readback: Seq<char>,
)
    requires
        json::field(v, "response_type"@) is Some,
        json::field(v, "data"@) is Some,
        json::list_field(json::field(v, "data"@)->0, "success"@) == Some(success),
        json::list_field(json::field(v, "data"@)->0, "failed"@) == Some(failed),
        0 <= i < success.len(),
        json::text_field(success[i], "type"@) != Some("area"@),
        json::text_field(success[i], "name"@) is Some,
        forall|j: int|
            0 <= j < failed.len() ==> json::text_field(#[trigger] failed[j], "type"@) == Some(
                "area"@,
            ),
        tool.verify == VerifyClass::PostCondition,
        tool.readback == Some(readback),
    ensures
        replied(tool, name, sent, ReplyV::Answered(answer), Some(v)) == (NextV::Look { readback }),
{
    let n = json::text_field(success[i], "name"@)->0;
    let data = json::field(v, "data"@)->0;
    vendor::law_each_device_is_accounted_for(v, success, failed, i, n);
    vendor::law_admission_counts_devices(v, data, success, failed);
    assert(json::field(data, "success"@) is Some);
    assert(vendor::admitted_by(v) == Some(AdmissionV::Worked));
}

/// A result whose failures hold a device is told as a failure, and so is one
/// whose successes hold none; the devices of both lists are among the targets.
pub proof fn law_a_failed_device_fails_the_call(
    tool: RunnableV,
    name: Seq<char>,
    sent: Seq<char>,
    answer: Seq<char>,
    v: JsonV,
    success: Seq<JsonV>,
    failed: Seq<JsonV>,
)
    requires
        json::field(v, "response_type"@) is Some,
        json::field(v, "data"@) is Some,
        json::list_field(json::field(v, "data"@)->0, "success"@) == Some(success),
        json::list_field(json::field(v, "data"@)->0, "failed"@) == Some(failed),
        (exists|j: int|
            0 <= j < failed.len() && json::text_field(#[trigger] failed[j], "type"@) != Some(
                "area"@,
            )) || (forall|j: int|
            0 <= j < success.len() ==> json::text_field(#[trigger] success[j], "type"@) == Some(
                "area"@,
            )),
    ensures
        ({
            let next = replied(tool, name, sent, ReplyV::Answered(answer), Some(v));
            &&& next matches NextV::Done(ran) && ran.out.failed && ran.how == RunOutcome::Failed
                && ran.sent == sent && ran.targets == vendor::reached_by(v) && (
            ran.out.retryable <==> name == "HassTurnOn"@ || name == "HassTurnOff"@)
        }),
{
    let data = json::field(v, "data"@)->0;
    vendor::law_admission_counts_devices(v, data, success, failed);
    assert(json::field(data, "success"@) is Some);
}

/// What the reading says decides: a command the home contradicts has failed, one
/// it confirms is confirmed, and one it says nothing of is accepted; what was sent
/// and which devices were reached stays as it was.
pub proof fn law_the_home_has_the_last_word(
    name: Seq<char>,
    sent: Seq<char>,
    answer: Seq<char>,
    repeatable: bool,
    touched: Seq<TargetV>,
    verdict: Option<Verdict>,
    readings: Seq<(Seq<char>, Seq<char>)>,
)
    ensures
        ({
            let ran = concluded(name, sent, answer, repeatable, touched, verdict, readings);
            &&& ran.targets == touched
            &&& ran.sent == sent
            &&& ran.out.failed <==> verdict == Some(Verdict::Contradicted)
            &&& ran.out.retryable <==> verdict == Some(Verdict::Contradicted) && repeatable
            &&& ran.how == RunOutcome::Failed <==> verdict == Some(Verdict::Contradicted)
            &&& ran.how == RunOutcome::Confirmed <==> verdict == Some(Verdict::Confirmed)
            &&& ran.how == RunOutcome::Accepted <==> verdict is None
        }),
{
}

/// Where two tools have one name, the later one is run; a name nobody has is no
/// tool.
pub proof fn law_the_last_of_a_name_is_run(
    v: Seq<(Seq<char>, RunnableV)>,
    name: Seq<char>,
    i: int,
)
    requires
        0 <= i < v.len(),
    ensures
        v[i].0 == name && (forall|j: int| i < j < v.len() ==> (#[trigger] v[j]).0 != name)
            ==> tool_named(v, name) == Some(v[i].1),
        (forall|j: int| 0 <= j < v.len() ==> (#[trigger] v[j]).0 != name) ==> tool_named(v, name)
            is None,
    decreases v.len(),
{
    if v.last().0 == name {
        assert(v[v.len() - 1].0 == name);
    } else if v.len() > 1 {
        let t = v.drop_last();
        assert forall|j: int| 0 <= j < t.len() implies t[j] == v[j] by {}
        if i < t.len() {
            law_the_last_of_a_name_is_run(t, name, i);
        } else {
            law_the_last_of_a_name_is_run(t, name, 0);
        }
        if v[i].0 == name && (forall|j: int| i < j < v.len() ==> (#[trigger] v[j]).0 != name) {
            assert(forall|j: int| i < j < t.len() ==> (#[trigger] t[j]).0 == v[j].0);
        }
        if forall|j: int| 0 <= j < v.len() ==> (#[trigger] v[j]).0 != name {
            assert(forall|j: int| 0 <= j < t.len() ==> (#[trigger] t[j]).0 == v[j].0);
        }
    } else {
        assert(v.drop_last().len() == 0);
        assert(tool_named(v.drop_last(), name) is None);
    }
}

/// A call to no tool is refused before anything is sent; so is one whose
/// arguments are objected to. Any other is sent, with the arguments as they were
/// made ready, written out.
pub proof fn law_what_is_sent_was_not_objected_to(
    tools: Seq<(Seq<char>, RunnableV)>,
    facts: HouseFactsV,
    call: ToolCallV,
    parsed: Option<JsonV>,
)
    ensures
        ({
            let tool = tool_named(tools, call.name);
            let args = arguments::prepared(facts, arguments::written_args(parsed));
            let fine = tool is Some && arguments::objections(tool->0.schema, args).len() == 0;
            let next = begun(tools, facts, call, parsed);
            &&& next is Send <==> fine
            &&& fine ==> next == (BegunV::Send { args, sent: json::compact(args) })
            &&& next matches BegunV::Done(ran) ==> ran.out.failed && ran.out.retryable
                && ran.targets.len() == 0 && ran.how == RunOutcome::Failed && ran.sent == (
            if tool is None {
                call.arguments
            } else {
                json::compact(args)
            })
        }),
{
}

/// An answer is told in brief: whole where it has no more characters than the
/// bound once the blanks round it are gone, otherwise its beginning up to the
/// bound and an ellipsis, and `Done.` where nothing is left of it.
pub proof fn law_an_answer_is_told_in_brief(s: Seq<char>)
    ensures
        ({
            let t = text::trimmed(s);
            &&& t.len() == 0 ==> in_brief(s) == "Done."@
            &&& 0 < t.len() <= 2000 ==> in_brief(s) == t
            &&& t.len() > 2000 ==> in_brief(s).len() == 2001 && in_brief(s).take(2000) == t.take(2000)
                && in_brief(s)[2000] == '…'
        }),
{
    reveal_strlit("…");
    let t = text::trimmed(s);
    if t.len() > 2000 {
        assert(in_brief(s).take(2000) == t.take(2000));
    }
}

/// Every reading is worded in the sentence on the house, in order.
pub proof fn law_every_reading_is_worded(readings: Seq<(Seq<char>, Seq<char>)>, i: int)
    requires
        0 <= i < readings.len(),
    ensures
        readings_worded(readings).len() == readings.len(),
        readings_worded(readings)[i] == readings[i].0 + " is "@ + readings[i].1,
        house_sentence(readings) == " Reading the home back afterwards: "@ + text::joined(
            readings_worded(readings),
            ", "@,
        ) + ". Tell the user what the home actually says, not what was asked for."@,
{
}

/// The devices looked up are those that landed, each of them and no others.
pub proof fn law_what_landed_is_looked_up(targets: Seq<TargetV>, n: Seq<char>)
    ensures
        landed_names(targets).contains(n) <==> exists|i: int|
            0 <= i < targets.len() && (#[trigger] targets[i]).landed && targets[i].name == n,
    decreases targets.len(),
{
    if targets.len() > 0 {
        let init = targets.drop_last();
        law_what_landed_is_looked_up(init, n);
        let before = landed_names(init);
        let after = landed_names(targets);
        if before.contains(n) {
            let k = choose|k: int| 0 <= k < before.len() && before[k] == n;
            assert(after[k] == n);
            let i = choose|i: int|
                0 <= i < init.len() && (#[trigger] init[i]).landed && init[i].name == n;
            assert(init[i] == targets[i]);
        }
        if after.contains(n) && !before.contains(n) {
            let k = choose|k: int| 0 <= k < after.len() && after[k] == n;
            if k < before.len() {
                assert(before[k] == n);
            }
            assert(targets[targets.len() - 1] == targets.last());
        }
        assert forall|i: int|
            0 <= i < targets.len() && (#[trigger] targets[i]).landed && targets[i].name
                == n implies after.contains(n) by {
            if i < init.len() {
                assert(init[i] == targets[i]);
            } else {
                assert(after[after.len() - 1] == n);
            }
        }
    }
}

/// A call that was not made, or that the server refused, says which, why, and
/// that nothing was changed, and invites another try.
pub proof fn law_what_a_refused_call_says(
    tool: RunnableV,
    name: Seq<char>,
    sent: Seq<char>,
    why: Seq<char>,
    parsed: Option<JsonV>,
)
    ensures
        ({
            let a = replied(tool, name, sent, ReplyV::Unreached(why), parsed);
            &&& a matches NextV::Done(ran) && ran.out.summary == name + " could not be run: "@ + why
                + " "@ + RETRY_INVITATION@
        }),
        ({
            let b = replied(tool, name, sent, ReplyV::Objected(why), parsed);
            &&& b matches NextV::Done(ran) && ran.out.summary == name + " failed: "@ + in_brief(why)
                + " "@ + RETRY_INVITATION@
        }),
{
}

/// A call whose answer admits a failure says so: that it did not work, and how
/// the server put it; or which devices were missed, where they have names. Where
/// it may be repeated, another try is invited for the rest.
pub proof fn law_what_an_admitted_failure_says(
    tool: RunnableV,
    name: Seq<char>,
    sent: Seq<char>,
    answer: Seq<char>,
    touched: Seq<TargetV>,
    failed: Seq<Seq<char>>,
)
    ensures
        ({
            let a = weighed(
                tool,
                name,
                sent,
                answer,
                false,
                Some(AdmissionV::NothingWorked),
                touched,
            );
            &&& a matches NextV::Done(ran) && ran.out.summary == name + " did not work: "@
                + in_brief(answer)
        }),
        ({
            let b = weighed(
                tool,
                name,
                sent,
                answer,
                true,
                Some(AdmissionV::NothingWorked),
                touched,
            );
            &&& b matches NextV::Done(ran) && ran.out.summary == name + " did not work: "@
                + in_brief(answer) + " "@ + RETRY_THE_REST@
        }),
        ({
            let c = weighed(
                tool,
                name,
                sent,
                answer,
                false,
                Some(AdmissionV::PartlyWorked { failed }),
                touched,
            );
            &&& c matches NextV::Done(ran) && ran.out.summary == (if failed.len() == 0 {
                name
                    + " worked for some devices but not for all of them. Tell the user that some did not respond, and do not claim the whole request succeeded."@
            } else {
                name + " worked for some devices but not for these: "@ + text::joined(failed, ", "@)
                    + ". Tell the user which ones did not respond, and do not claim the whole request succeeded."@
            })
        }),
{
}

/// A call that went as asked says what the server said, in brief; one whose
/// effect nobody can see says that it was sent.
pub proof fn law_what_a_call_that_went_well_says(
    tool: RunnableV,
    name: Seq<char>,
    sent: Seq<char>,
    answer: Seq<char>,
    repeatable: bool,
    touched: Seq<TargetV>,
)
    requires
        tool.verify != VerifyClass::PostCondition,
    ensures
        ({
            let next = weighed(tool, name, sent, answer, repeatable, None, touched);
            &&& next matches NextV::Done(ran) && ran.out.summary == (if tool.verify
                == VerifyClass::Unobserved {
                name + " was sent. "@ + in_brief(answer)
            } else {
                in_brief(answer)
            })
        }),
        call::worked_with(answer).summary == answer,
        !call::worked_with(answer).failed,
        !call::worked_with(answer).retryable,
{
}

/// What is said after the home was read: a contradiction, with what the home
/// says; a confirmation, in brief; or, where it says nothing either way, what the
/// server said and what the home does.
pub proof fn law_what_is_said_after_a_look(
    name: Seq<char>,
    sent: Seq<char>,
    answer: Seq<char>,
    touched: Seq<TargetV>,
    readings: Seq<(Seq<char>, Seq<char>)>,
)
    ensures
        concluded(
            name,
            sent,
            answer,
            false,
            touched,
            Some(Verdict::Contradicted),
            readings,
        ).out.summary == name
            + " was accepted, but the devices are not in the state you asked for."@
            + house_sentence(readings),
        concluded(
            name,
            sent,
            answer,
            true,
            touched,
            Some(Verdict::Confirmed),
            readings,
        ).out.summary == in_brief(answer),
        concluded(name, sent, answer, true, touched, None, readings).out.summary == in_brief(answer)
            + house_sentence(readings),
        house_sentence(Seq::empty()).len() == 0,
{
}

/// A call to a server that is known is concluded by what the home says of the
/// devices it claims; one to any other, and one after which the home could not be
/// read, is accepted as the server put it.
pub proof fn law_the_look_is_at_what_was_claimed(
    name: Seq<char>,
    sent: Seq<char>,
    answer: Seq<char>,
    v: JsonV,
    l: Seq<char>,
    other: Option<JsonV>,
)
    requires
        vendor::family_of(Some(v)) == vendor::Family::HomeAssistant,
        vendor::family_of(other) == vendor::Family::Unknown,
    ensures
        looked_at(name, sent, answer, Some(v), Some(l)) == concluded(
            name,
            sent,
            answer,
            name == "HassTurnOn"@ || name == "HassTurnOff"@,
            vendor::reached_by(v),
            vendor::confirmed_by(name, Some(v), l),
            vendor::observed(l, vendor::claimed_by(v)),
        ),
        ({
            let ran = looked_at(name, sent, answer, Some(v), None);
            ran.how == RunOutcome::Accepted && ran.out.summary == in_brief(answer) && ran.targets
                == vendor::reached_by(v) && ran.sent == sent
        }),
        ({
            let ran = looked_at(name, sent, answer, other, Some(l));
            ran.how == RunOutcome::Accepted && ran.out.summary == in_brief(answer)
                && ran.targets.len() == 0 && ran.sent == sent
        }),
{
    law_only_claimed_devices_are_looked_up(v);
    vendor::law_switching_may_be_repeated(name, v, l);
    assert(in_brief(answer) + Seq::<char>::empty() == in_brief(answer));
}

/// The home is read where the readback answered, and its answer is unwrapped.
pub proof fn law_the_home_is_read_where_it_answers(t: Seq<char>)
    ensures
        live_of(None) is None,
        live_of(Some(t)) == Some(vendor::live_text(json::json_value(t), t)),
{
}

/// A call to a tool nobody has, and one whose arguments are objected to, say so
/// and that nothing was changed.
pub proof fn law_what_a_call_that_was_not_sent_says(
    tools: Seq<(Seq<char>, RunnableV)>,
    facts: HouseFactsV,
    call: ToolCallV,
    parsed: Option<JsonV>,
)
    ensures
        ({
            let next = begun(tools, facts, call, parsed);
            let tool = tool_named(tools, call.name);
            let args = arguments::prepared(facts, arguments::written_args(parsed));
            &&& tool is None ==> (next matches BegunV::Done(ran) && ran.out.summary
                == "There is no tool called "@ + call.name + "."@ + " "@ + RETRY_INVITATION@)
            &&& tool is Some && arguments::objections(tool->0.schema, args).len() > 0 ==> (
            next matches BegunV::Done(ran) && ran.out.summary == call.name + " was not sent: "@
                + text::joined(arguments::objections(tool->0.schema, args), "; "@) + "."@ + " "@
                + RETRY_INVITATION@)
        }),
{
}

/// The two invitations to try again: where nothing was changed, and where
/// something was and the rest is missing.
pub proof fn law_the_two_invitations()
    ensures
        RETRY_INVITATION@
            == "Nothing was changed. If you can tell from this what was wrong with the request, correct it and call the tool once more; otherwise tell the user plainly what went wrong."@,
        RETRY_THE_REST@
            == "If you can tell from this what was wrong with the request, correct it and call the tool once more for what was missed; otherwise tell the user plainly which parts did not happen."@,
{
}

/// A text is clipped where it has more characters than it may: its beginning up
/// to the bound stays, and an ellipsis stands behind it.
pub proof fn law_a_text_is_clipped_at_its_bound(s: Seq<char>, n: nat, i: int)
    ensures
        s.len() <= n ==> clipped(s, n) == s,
        s.len() > n ==> clipped(s, n).len() == n + 1 && clipped(s, n).last() == '…',
        0 <= i < n && i < s.len() ==> clipped(s, n)[i] == s[i],
{
    reveal_strlit("…");
}

/// An answer that admits no failure is looked into exactly where the tool's class
/// is post-condition, it has a readback tool, and the answer names a device it
/// reached; otherwise the call is done, with the devices the answer names.
pub proof fn law_an_answer_is_looked_into_where_it_can_be(
    tool: RunnableV,
    name: Seq<char>,
    sent: Seq<char>,
    answer: Seq<char>,
    parsed: Option<JsonV>,
)
    requires
        ({
            let admission = vendor::family_admits(vendor::family_of(parsed), parsed);
            admission is None || admission == Some(AdmissionV::Worked)
        }),
    ensures
        ({
            let next = replied(tool, name, sent, ReplyV::Answered(answer), parsed);
            let touched = vendor::family_reaches(vendor::family_of(parsed), parsed);
            let looked = tool.readback is Some && tool.verify == VerifyClass::PostCondition
                && touched.len() > 0;
            &&& looked ==> next == (NextV::Look { readback: tool.readback->0 })
            &&& !looked ==> (next matches NextV::Done(ran) && ran.targets == touched && ran.sent
                == sent && !ran.out.failed && !ran.out.retryable)
        }),
{
}

} // verus!
