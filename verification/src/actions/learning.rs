//! What a turn did, and what is written down about it.
//!
//! Two halves of one fact live in different places. The actions know *what was
//! done*; only the caller knows *what was said* and when the reply finished. So
//! a turn fills in a [`Learning`] as it runs and hands it back at the end.
//!
//! Nothing here touches the catalogue: each decision says what is to be written,
//! and the caller writes it.

use vstd::prelude::*;

use super::call;
use super::call::{RunOutcome, ToolCall, ToolCallV, ToolOutcome};
use super::ladder::{Ran, RanV};
use super::vendor;
use super::vendor::{Target, TargetV};
use crate::text;
use crate::text::{copy_opt, copy_texts, own};

verus! {

/// One thing a turn did, in the form a spoken phrase can be keyed to.
#[derive(Debug, Clone)]
pub struct Acted {
    pub source: String,
    pub tool: String,
    /// Exactly what went to the server, so a replay sends the same thing.
    pub args: String,
    pub devices: Vec<String>,
    pub ok: bool,
    pub ms: i64,
}

/// What an [`Acted`] says.
pub struct ActedV {
    pub source: Seq<char>,
    pub tool: Seq<char>,
    pub args: Seq<char>,
    pub devices: Seq<Seq<char>>,
    pub ok: bool,
    pub ms: i64,
}

impl View for Acted {
    type V = ActedV;

    open spec fn view(&self) -> ActedV {
        ActedV {
            source: self.source@,
            tool: self.tool@,
            args: self.args@,
            devices: text::texts(self.devices@),
            ok: self.ok,
            ms: self.ms,
        }
    }
}

/// What a list of deeds says.
pub open spec fn deeds_say(v: Seq<Acted>) -> Seq<ActedV> {
    v.map_values(|a: Acted| a@)
}

/// A run to be remembered under a phrase.
#[derive(Debug, Clone)]
pub struct Said {
    pub phrase: String,
    pub lang: String,
    pub source: String,
    pub tool: String,
    pub args: String,
    pub devices: Vec<String>,
    pub ok: bool,
    pub ms: i64,
}

/// What a [`Said`] says.
pub struct SaidV {
    pub phrase: Seq<char>,
    pub lang: Seq<char>,
    pub source: Seq<char>,
    pub tool: Seq<char>,
    pub args: Seq<char>,
    pub devices: Seq<Seq<char>>,
    pub ok: bool,
    pub ms: i64,
}

impl View for Said {
    type V = SaidV;

    open spec fn view(&self) -> SaidV {
        SaidV {
            phrase: self.phrase@,
            lang: self.lang@,
            source: self.source@,
            tool: self.tool@,
            args: self.args@,
            devices: text::texts(self.devices@),
            ok: self.ok,
            ms: self.ms,
        }
    }
}

/// What an optional [`Said`] says.
pub open spec fn opt_said(o: Option<Said>) -> Option<SaidV> {
    match o {
        Some(s) => Some(s@),
        None => None,
    }
}

/// What a turn did, held until the reply is over and it can be written down.
///
/// A run is judged by whether the user came back about the same thing soon
/// after hearing the reply, so the clock starts when the reply ends and not when
/// the command was sent.
#[derive(Debug)]
pub struct Learning {
    /// The catalogue to write to. Absent on a path that is not a turn, and then
    /// nothing is written.
    db: Option<String>,
    did: Vec<Acted>,
}

/// What a [`Learning`] holds.
pub struct LearningV {
    pub db: Option<Seq<char>>,
    pub did: Seq<ActedV>,
}

impl View for Learning {
    type V = LearningV;

    closed spec fn view(&self) -> LearningV {
        LearningV { db: text::opt_text(self.db), did: deeds_say(self.did@) }
    }
}

/// What is written down when a reply is over: the run before is judged by what
/// this turn reached, and then this turn is remembered.
#[derive(Debug, Clone)]
pub struct Closing {
    pub db: String,
    /// Everything this turn reached, whatever command reached it. A complaint
    /// is about a thing in the home, not about the command that moved it.
    pub touched: Vec<String>,
    /// The run to remember, once the one before has been judged.
    pub remember: Option<Said>,
}

/// What a [`Closing`] says.
pub struct ClosingV {
    pub db: Seq<char>,
    pub touched: Seq<Seq<char>>,
    pub remember: Option<SaidV>,
}

impl View for Closing {
    type V = ClosingV;

    open spec fn view(&self) -> ClosingV {
        ClosingV {
            db: self.db@,
            touched: text::texts(self.touched@),
            remember: opt_said(self.remember),
        }
    }
}

/// Everything some deeds reached, in order.
pub open spec fn touched_by(did: Seq<ActedV>) -> Seq<Seq<char>>
    decreases did.len(),
{
    if did.len() == 0 {
        Seq::empty()
    } else {
        touched_by(did.drop_last()) + did.last().devices
    }
}

/// A deed under the phrase that led to it.
pub open spec fn said_of(a: ActedV, phrase: Seq<char>, lang: Seq<char>) -> SaidV {
    SaidV {
        phrase,
        lang,
        source: a.source,
        tool: a.tool,
        args: a.args,
        devices: a.devices,
        ok: a.ok,
        ms: a.ms,
    }
}

/// What is written down when a reply is over. Only a turn that ran exactly one
/// command is remembered: a turn that ran several did several things, and
/// replaying one of them later would do part of what was asked.
pub open spec fn closing(l: LearningV, phrase: Seq<char>, lang: Seq<char>) -> Option<ClosingV> {
    match l.db {
        Some(db) => if l.did.len() == 0 {
            None
        } else {
            Some(
                ClosingV {
                    db,
                    touched: touched_by(l.did),
                    remember: if l.did.len() == 1 {
                        Some(said_of(l.did[0], phrase, lang))
                    } else {
                        None
                    },
                },
            )
        },
        None => None,
    }
}

impl Learning {
    /// Somewhere for one turn's actions to be written down.
    pub fn new(db: String) -> (r: Learning)
        ensures
            r@.db == Some(db@),
            r@.did.len() == 0,
    {
        Learning { db: Some(db), did: Vec::new() }
    }

    /// One that records nothing, for a path that is not a turn — warming a
    /// prompt, where nobody has spoken and so there is nothing to learn from.
    pub fn none() -> (r: Learning)
        ensures
            r@.db is None,
            r@.did.len() == 0,
    {
        Learning { db: None, did: Vec::new() }
    }

    /// The catalogue this turn is written down in.
    pub fn db(&self) -> (r: Option<&str>)
        ensures
            text::opt_str(r) == self@.db,
    {
        match &self.db {
            Some(d) => Some(d.as_str()),
            None => None,
        }
    }

    /// One more thing this turn did.
    pub fn add(&mut self, a: Acted)
        ensures
            final(self)@.db == old(self)@.db,
            final(self)@.did == old(self)@.did.push(a@),
    {
        let ghost before = deeds_say(self.did@);
        self.did.push(a);
        assert(deeds_say(self.did@) =~= before.push(a@));
    }

    /// The reply is over: what is to be judged, and what is to be written down.
    ///
    /// Judging comes first, because what is being judged is the *previous* run
    /// of this phrase, and writing this turn down first would overwrite the very
    /// run being scored.
    pub fn finished(&self, said: &str, lang: &str) -> (r: Option<Closing>)
        ensures
            match r {
                Some(c) => closing(self@, said@, lang@) == Some(c@),
                None => closing(self@, said@, lang@) is None,
            },
    {
        let db = match &self.db {
            Some(d) => d,
            None => {
                return None;
            },
        };
        let ghost all = deeds_say(self.did@);
        assert(all.len() == self.did@.len());
        if self.did.len() == 0 {
            return None;
        }
        let mut touched: Vec<String> = Vec::new();
        assert(text::texts(touched@) =~= touched_by(all.take(0)));
        for i in 0..self.did.len()
            invariant
                all == deeds_say(self.did@),
                text::texts(touched@) == touched_by(all.take(i as int)),
        {
            let ghost before = touched@;
            proof {
                assert(all.take(i + 1).drop_last() == all.take(i as int));
                assert(all[i as int] == self.did@[i as int]@);
            }
            let mut more = copy_texts(&self.did[i].devices);
            let ghost added = more@;
            touched.append(&mut more);
            assert(text::texts(touched@) =~= text::texts(before) + text::texts(added));
        }
        assert(all.take(all.len() as int) == all);
        let remember = if self.did.len() == 1 {
            let one = &self.did[0];
            assert(all[0] == one@);
            Some(
                Said {
                    phrase: own(said),
                    lang: own(lang),
                    source: one.source.clone(),
                    tool: one.tool.clone(),
                    args: one.args.clone(),
                    devices: copy_texts(&one.devices),
                    ok: one.ok,
                    ms: one.ms,
                },
            )
        } else {
            None
        };
        Some(Closing { db: db.clone(), touched, remember })
    }
}

// ---------------------------------------------------------------------------
// The journal
// ---------------------------------------------------------------------------

/// One line of the journal: a finished call, and on whose behalf.
#[derive(Debug, Clone)]
pub struct Entry {
    pub source: String,
    pub tool: String,
    pub how: RunOutcome,
    pub ms: i64,
    /// How long the assistant thought before it called.
    pub think_ms: i64,
    /// The enrolled speaker for this turn, when one was recognised.
    pub speaker: Option<String>,
    /// Per device as well as per tool: one command naming an area reaches
    /// several things with different fates.
    pub devices: Vec<Target>,
}

/// What an [`Entry`] says.
pub struct EntryV {
    pub source: Seq<char>,
    pub tool: Seq<char>,
    pub how: RunOutcome,
    pub ms: i64,
    pub think_ms: i64,
    pub speaker: Option<Seq<char>>,
    pub devices: Seq<TargetV>,
}

impl View for Entry {
    type V = EntryV;

    open spec fn view(&self) -> EntryV {
        EntryV {
            source: self.source@,
            tool: self.tool@,
            how: self.how,
            ms: self.ms,
            think_ms: self.think_ms,
            speaker: text::opt_text(self.speaker),
            devices: vendor::targets_say(self.devices@),
        }
    }
}

/// A count of milliseconds, held at what the journal can store.
pub open spec fn stored_ms(ms: nat) -> i64 {
    if ms > i64::MAX {
        i64::MAX
    } else {
        ms as i64
    }
}

fn store_ms(ms: u128) -> (r: i64)
    ensures
        r == stored_ms(ms as nat),
{
    if ms > i64::MAX as u128 {
        i64::MAX
    } else {
        ms as i64
    }
}

/// The names of some targets.
pub open spec fn target_names(targets: Seq<TargetV>) -> Seq<Seq<char>> {
    targets.map_values(|t: TargetV| t.name)
}

/// What a finished call is, as a deed of the turn.
pub open spec fn deed_of(source: Seq<char>, tool: Seq<char>, ran: RanV, ms: nat) -> ActedV {
    ActedV {
        source,
        tool,
        args: ran.sent,
        devices: target_names(ran.targets),
        ok: ran.how != RunOutcome::Failed,
        ms: stored_ms(ms),
    }
}

/// What a finished call is, as a line of the journal.
pub open spec fn entry_of(
    source: Seq<char>,
    tool: Seq<char>,
    ran: RanV,
    think: nat,
    ms: nat,
    speaker: Option<Seq<char>>,
) -> EntryV {
    EntryV {
        source,
        tool,
        how: ran.how,
        ms: stored_ms(ms),
        think_ms: stored_ms(think),
        speaker,
        devices: ran.targets,
    }
}

fn names_of(targets: &Vec<Target>) -> (r: Vec<String>)
    ensures
        text::texts(r@) == target_names(vendor::targets_say(targets@)),
{
    let mut out: Vec<String> = Vec::new();
    for i in 0..targets.len()
        invariant
            out@.len() == i,
            forall|k: int| 0 <= k < i ==> out@[k]@ == targets@[k].name@,
    {
        out.push(targets[i].name.clone());
    }
    assert(text::texts(out@) =~= target_names(vendor::targets_say(targets@)));
    out
}

/// Note a finished call: add it to what the turn did, and say what the journal
/// records.
pub fn note(
    learning: &mut Learning,
    source: &str,
    tool: &str,
    ran: &Ran,
    think_ms: u128,
    elapsed_ms: u128,
    speaker: &Option<String>,
) -> (r: Entry)
    ensures
        final(learning)@.db == old(learning)@.db,
        final(learning)@.did == old(learning)@.did.push(
            deed_of(source@, tool@, ran@, elapsed_ms as nat),
        ),
        r@ == entry_of(
            source@,
            tool@,
            ran@,
            think_ms as nat,
            elapsed_ms as nat,
            text::opt_text(*speaker),
        ),
{
    let ms = store_ms(elapsed_ms);
    let acted = Acted {
        source: own(source),
        tool: own(tool),
        args: ran.sent.clone(),
        devices: names_of(&ran.targets),
        ok: ran.how != RunOutcome::Failed,
        ms,
    };
    learning.add(acted);
    Entry {
        source: own(source),
        tool: own(tool),
        how: ran.how,
        ms,
        think_ms: store_ms(think_ms),
        speaker: copy_opt(speaker),
        devices: super::vendor::copy_targets(&ran.targets),
    }
}

// ---------------------------------------------------------------------------
// Replaying
// ---------------------------------------------------------------------------

/// A command a phrase has always run.
#[derive(Debug, Clone)]
pub struct Shortcut {
    pub lang: String,
    pub source: String,
    pub tool: String,
    pub args: String,
}

/// What a [`Shortcut`] says.
pub struct ShortcutV {
    pub lang: Seq<char>,
    pub source: Seq<char>,
    pub tool: Seq<char>,
    pub args: Seq<char>,
}

impl View for Shortcut {
    type V = ShortcutV;

    open spec fn view(&self) -> ShortcutV {
        ShortcutV {
            lang: self.lang@,
            source: self.source@,
            tool: self.tool@,
            args: self.args@,
        }
    }
}

/// Something that happened to a tool during a turn.
#[derive(Debug, Clone)]
pub enum ToolEvent {
    Called(ToolCall),
    Result { tool_call_id: String, summary: String, failed: bool },
}

/// What a [`ToolEvent`] says.
pub enum ToolEventV {
    Called(ToolCallV),
    Result { tool_call_id: Seq<char>, summary: Seq<char>, failed: bool },
}

impl View for ToolEvent {
    type V = ToolEventV;

    open spec fn view(&self) -> ToolEventV {
        match self {
            ToolEvent::Called(c) => ToolEventV::Called(c@),
            ToolEvent::Result { tool_call_id, summary, failed } => ToolEventV::Result {
                tool_call_id: tool_call_id@,
                summary: summary@,
                failed: *failed,
            },
        }
    }
}

/// One piece of a turn's stream: words to speak, and perhaps an event.
#[derive(Debug, Clone)]
pub struct TokenDelta {
    pub text: String,
    pub tool_event: Option<ToolEvent>,
}

/// What a [`TokenDelta`] says.
pub struct TokenDeltaV {
    pub text: Seq<char>,
    pub tool_event: Option<ToolEventV>,
}

impl View for TokenDelta {
    type V = TokenDeltaV;

    open spec fn view(&self) -> TokenDeltaV {
        TokenDeltaV {
            text: self.text@,
            tool_event: match self.tool_event {
                Some(e) => Some(e@),
                None => None,
            },
        }
    }
}

/// What a stream says.
pub open spec fn stream_says(v: Seq<TokenDelta>) -> Seq<TokenDeltaV> {
    v.map_values(|d: TokenDelta| d@)
}

impl TokenDelta {
    /// An event with nothing spoken beside it.
    pub fn tool(event: ToolEvent) -> (r: TokenDelta)
        ensures
            r@ == (TokenDeltaV { text: Seq::empty(), tool_event: Some(event@) }),
    {
        let text = String::new();
        assert(text@ =~= Seq::empty());
        TokenDelta { text, tool_event: Some(event) }
    }
}

/// The call a shortcut stands for.
pub open spec fn replay_of(found: ShortcutV) -> ToolCallV {
    ToolCallV { id: "replay"@, name: found.tool, arguments: found.args }
}

/// The call a shortcut stands for, to be sent as it was sent before.
pub fn replay_call(found: &Shortcut) -> (r: ToolCall)
    ensures
        r@ == replay_of(found@),
{
    ToolCall { id: own("replay"), name: found.tool.clone(), arguments: found.args.clone() }
}

/// The events a replay that worked puts on the stream: the call, and its
/// result. Nothing is spoken.
pub open spec fn replay_events(call: ToolCallV, summary: Seq<char>) -> Seq<TokenDeltaV> {
    seq![
        TokenDeltaV { text: Seq::empty(), tool_event: Some(ToolEventV::Called(call)) },
        TokenDeltaV {
            text: Seq::empty(),
            tool_event: Some(
                ToolEventV::Result { tool_call_id: "replay"@, summary, failed: false },
            ),
        },
    ]
}

/// What a replay comes to: the turn's events where it worked, and how long it
/// took where it did not.
pub fn run_again(call: &ToolCall, out: &ToolOutcome, elapsed_ms: u128) -> (r: Result<
    Vec<TokenDelta>,
    i64,
>)
    ensures
        match r {
            Ok(events) => !out@.failed && stream_says(events@) == replay_events(
                call@,
                out@.summary,
            ),
            Err(ms) => out@.failed && ms == stored_ms(elapsed_ms as nat),
        },
{
    if out.failed {
        return Err(store_ms(elapsed_ms));
    }
    let mut events: Vec<TokenDelta> = Vec::new();
    events.push(TokenDelta::tool(ToolEvent::Called(call.copy())));
    events.push(
        TokenDelta::tool(
            ToolEvent::Result {
                tool_call_id: own("replay"),
                summary: out.summary.clone(),
                failed: false,
            },
        ),
    );
    assert(stream_says(events@) =~= replay_events(call@, out@.summary));
    Ok(events)
}

/// The run that makes a phrase slow again.
pub open spec fn failed_replay(phrase: Seq<char>, found: ShortcutV, ms: i64) -> SaidV {
    SaidV {
        phrase,
        lang: found.lang,
        source: found.source,
        tool: found.tool,
        args: found.args,
        devices: Seq::empty(),
        ok: false,
        ms,
    }
}

/// What comes of replaying a phrase.
#[derive(Debug, Clone)]
pub enum Replayed {
    /// The command is done and the turn needs no model at all.
    Turn(Vec<TokenDelta>),
    /// It did not work: this is to be written down, and the model asked. A turn
    /// that goes on to run a second command is never learned from, so this is
    /// the only chance to record it.
    Slow(Said),
}

/// Run what this phrase has always run: given what the executor made of the
/// call, either the turn's events or the run that makes the phrase slow again.
///
/// Falling back on a failure cannot double an action: only a call that names a
/// thing is ever written down, and asking twice for a thing to be on leaves it
/// on.
pub fn replay(said: &str, found: &Shortcut, out: &ToolOutcome, elapsed_ms: u128) -> (r: Replayed)
    ensures
        match r {
            Replayed::Turn(events) => !out@.failed && stream_says(events@) == replay_events(
                replay_of(found@),
                out@.summary,
            ),
            Replayed::Slow(dirty) => out@.failed && dirty@ == failed_replay(
                said@,
                found@,
                stored_ms(elapsed_ms as nat),
            ),
        },
{
    let call = replay_call(found);
    match run_again(&call, out, elapsed_ms) {
        Ok(events) => Replayed::Turn(events),
        Err(ms) => {
            let none: Vec<String> = Vec::new();
            assert(text::texts(none@) =~= Seq::empty());
            Replayed::Slow(
                Said {
                    phrase: own(said),
                    lang: found.lang.clone(),
                    source: found.source.clone(),
                    tool: found.tool.clone(),
                    args: found.args.clone(),
                    devices: none,
                    ok: false,
                    ms,
                },
            )
        },
    }
}

// ---------------------------------------------------------------------------
// Laws
// ---------------------------------------------------------------------------

/// A path that is not a turn learns nothing, whatever runs on it.
pub proof fn law_no_turn_no_lesson(l: LearningV, phrase: Seq<char>, lang: Seq<char>)
    requires
        l.db is None,
    ensures
        closing(l, phrase, lang) is None,
{
}

/// A phrase is remembered exactly where its turn did one thing, and then for
/// exactly what was sent.
pub proof fn law_one_thing_is_remembered(l: LearningV, phrase: Seq<char>, lang: Seq<char>)
    requires
        l.db is Some,
    ensures
        closing(l, phrase, lang) is Some <==> l.did.len() > 0,
        l.did.len() > 0 ==> (closing(l, phrase, lang)->0.remember is Some <==> l.did.len() == 1),
        l.did.len() == 1 ==> closing(l, phrase, lang)->0.remember->0.args == l.did[0].args,
        l.did.len() == 1 ==> closing(l, phrase, lang)->0.touched == l.did[0].devices,
{
    if l.did.len() == 1 {
        assert(l.did.drop_last() =~= Seq::empty());
        assert(touched_by(l.did.drop_last()) =~= Seq::empty());
        assert(touched_by(l.did) =~= l.did[0].devices);
    }
}

/// A run that failed is never noted as one that worked, and what is noted to
/// have been sent is what was sent.
pub proof fn law_the_journal_says_what_happened(
    source: Seq<char>,
    tool: Seq<char>,
    ran: RanV,
    think: nat,
    ms: nat,
    speaker: Option<Seq<char>>,
)
    ensures
        deed_of(source, tool, ran, ms).ok <==> ran.how != RunOutcome::Failed,
        deed_of(source, tool, ran, ms).args == ran.sent,
        entry_of(source, tool, ran, think, ms, speaker).how == ran.how,
        entry_of(source, tool, ran, think, ms, speaker).devices == ran.targets,
        deed_of(source, tool, ran, ms).ms >= 0,
{
}

/// A replay sends exactly what was remembered: the call it makes has the tool
/// and the arguments of the turn the phrase was learned from.
pub proof fn law_a_replay_sends_what_was_sent(
    l: LearningV,
    phrase: Seq<char>,
    lang: Seq<char>,
    found: ShortcutV,
)
    requires
        closing(l, phrase, lang) is Some,
        closing(l, phrase, lang)->0.remember is Some,
        found.tool == closing(l, phrase, lang)->0.remember->0.tool,
        found.args == closing(l, phrase, lang)->0.remember->0.args,
    ensures
        replay_of(found).name == l.did[0].tool,
        replay_of(found).arguments == l.did[0].args,
{
}

/// Nothing is spoken on a replay.
pub proof fn law_a_replay_is_silent(call: ToolCallV, summary: Seq<char>, i: int)
    requires
        0 <= i < replay_events(call, summary).len(),
    ensures
        replay_events(call, summary)[i].text.len() == 0,
{
}

/// The devices touched are those of the things done, in the order they were
/// done.
pub proof fn law_devices_touched_come_in_order(
    a: Seq<ActedV>,
    b: Seq<ActedV>,
)
    ensures
        touched_by(a + b) == touched_by(a) + touched_by(b),
        a.len() == 1 ==> touched_by(a) == a[0].devices,
    decreases b.len(),
{
    if a.len() == 1 {
        assert(touched_by(a.drop_last()).len() == 0);
        assert(touched_by(a) == a[0].devices);
    }
    if b.len() == 0 {
        assert(a + b == a);
        assert(touched_by(a) + touched_by(b) == touched_by(a));
    } else {
        law_devices_touched_come_in_order(a, b.drop_last());
        assert((a + b).drop_last() == a + b.drop_last());
        assert((a + b).last() == b.last());
        assert(touched_by(a) + touched_by(b.drop_last()) + b.last().devices == touched_by(a) + (
        touched_by(b.drop_last()) + b.last().devices));
    }
}

/// A turn that did something is closed with where it is kept, every device its
/// deeds touched and, where it did one thing alone, what was said and done, word
/// for word.
pub proof fn law_a_turn_is_closed_as_it_went(l: LearningV, phrase: Seq<char>, lang: Seq<char>)
    requires
        l.db is Some,
        l.did.len() > 0,
    ensures
        ({
            let c = closing(l, phrase, lang);
            &&& c is Some
            &&& c->0.db == l.db->0
            &&& c->0.touched == touched_by(l.did)
            &&& l.did.len() >= 2 ==> c->0.remember is None
            &&& l.did.len() == 1 ==> c->0.remember is Some && c->0.remember->0.phrase == phrase
                && c->0.remember->0.lang == lang && c->0.remember->0.source == l.did[0].source
                && c->0.remember->0.tool == l.did[0].tool && c->0.remember->0.args == l.did[0].args
                && c->0.remember->0.devices == l.did[0].devices && c->0.remember->0.ok
                == l.did[0].ok && c->0.remember->0.ms == l.did[0].ms
        }),
{
}

/// A time is kept as it is where it can be, and as the longest that can be kept
/// where it cannot.
pub proof fn law_a_time_is_kept_as_it_is(ms: nat)
    ensures
        ms <= i64::MAX ==> stored_ms(ms) == ms,
        ms > i64::MAX ==> stored_ms(ms) == i64::MAX,
{
}

/// A deed names its source, its tool, every device of the run, in order, landed
/// or not, and its own time; a journal entry keeps the time spent thinking apart
/// from the time spent acting, and who spoke.
pub proof fn law_a_deed_names_every_device(
    source: Seq<char>,
    tool: Seq<char>,
    ran: RanV,
    think: nat,
    ms: nat,
    speaker: Option<Seq<char>>,
    i: int,
)
    ensures
        ({
            let d = deed_of(source, tool, ran, ms);
            let e = entry_of(source, tool, ran, think, ms, speaker);
            &&& d.source == source && d.tool == tool
            &&& d.devices.len() == ran.targets.len()
            &&& 0 <= i < ran.targets.len() ==> d.devices[i] == ran.targets[i].name
            &&& ms <= i64::MAX ==> d.ms == ms && e.ms == ms
            &&& think <= i64::MAX ==> e.think_ms == think
            &&& e.source == source && e.tool == tool && e.speaker == speaker
        }),
{
}

/// A replay calls the tool that was remembered with what was remembered; one
/// that fails is noted as a failure of that phrase and that call, and touches
/// nothing.
pub proof fn law_a_replay_is_what_was_remembered(
    phrase: Seq<char>,
    found: ShortcutV,
    call: ToolCallV,
    summary: Seq<char>,
    ms: i64,
)
    ensures
        replay_of(found).name == found.tool,
        replay_of(found).arguments == found.args,
        failed_replay(phrase, found, ms).phrase == phrase,
        failed_replay(phrase, found, ms).lang == found.lang,
        failed_replay(phrase, found, ms).source == found.source,
        failed_replay(phrase, found, ms).tool == found.tool,
        failed_replay(phrase, found, ms).args == found.args,
        failed_replay(phrase, found, ms).devices.len() == 0,
        !failed_replay(phrase, found, ms).ok,
        failed_replay(phrase, found, ms).ms == ms,
        replay_events(call, summary).len() == 2,
        replay_events(call, summary)[0].tool_event == Some(ToolEventV::Called(call)),
        replay_events(call, summary)[1].tool_event == Some(
            ToolEventV::Result { tool_call_id: replay_of(found).id, summary, failed: false },
        ),
{
}

} // verus!
