//! Write-through persistence for assistant conversations.
//!
//! The in-memory history stays authoritative for prompt construction. A sink
//! mirrors the same turns to a store at turn boundaries, so a conversation
//! survives a restart and can be reviewed afterwards.
//!
//! The sink decides what is to be written and to which thread; whoever holds the
//! store does the writing and answers with what came of it. Everything is best
//! effort: a store that fails leaves the sink as it would be without it, because
//! losing a history row must never break a reply the user is waiting to hear.

use vstd::prelude::*;

use crate::text;
use crate::text::{blank, copy_opt, own, own_opt};

verus! {

/// How conversations are kept.
#[derive(Debug, Clone, Copy)]
pub struct ConversationsConfig {
    pub enabled: bool,
    pub retention_days: u32,
    /// How long a thread may be silent before it is over, in seconds.
    pub idle_secs: i64,
}

/// Who a turn belongs to.
#[derive(Debug, Clone, Copy, PartialEq, Eq, Structural)]
pub enum TurnRole {
    User,
    Assistant,
    ToolCall,
    ToolResult,
}

/// Something to be written down, before it has a thread.
#[derive(Debug, Clone)]
pub struct Entry {
    pub role: TurnRole,
    pub text: String,
    pub speaker: Option<String>,
    pub backend: Option<String>,
    pub latency_ms: Option<i64>,
    /// Cut short by the user: the text is whatever was produced up to then.
    pub partial: bool,
    /// The executor's verdict on a tool's result.
    pub ok: Option<bool>,
}

/// What an [`Entry`] says.
#[verifier::ext_equal]
pub struct EntryV {
    pub role: TurnRole,
    pub text: Seq<char>,
    pub speaker: Option<Seq<char>>,
    pub backend: Option<Seq<char>>,
    pub latency_ms: Option<i64>,
    pub partial: bool,
    pub ok: Option<bool>,
}

impl View for Entry {
    type V = EntryV;

    open spec fn view(&self) -> EntryV {
        EntryV {
            role: self.role,
            text: self.text@,
            speaker: text::opt_text(self.speaker),
            backend: text::opt_text(self.backend),
            latency_ms: self.latency_ms,
            partial: self.partial,
            ok: self.ok,
        }
    }
}

/// One turn of a thread.
#[derive(Debug, Clone)]
pub struct Turn {
    pub thread_id: i64,
    pub role: TurnRole,
    pub text: String,
    pub speaker: Option<String>,
    pub latency_ms: Option<i64>,
    pub partial: bool,
    pub ok: Option<bool>,
}

/// What a [`Turn`] says.
#[verifier::ext_equal]
pub struct TurnV {
    pub thread_id: i64,
    pub role: TurnRole,
    pub text: Seq<char>,
    pub speaker: Option<Seq<char>>,
    pub latency_ms: Option<i64>,
    pub partial: bool,
    pub ok: Option<bool>,
}

impl View for Turn {
    type V = TurnV;

    open spec fn view(&self) -> TurnV {
        TurnV {
            thread_id: self.thread_id,
            role: self.role,
            text: self.text@,
            speaker: text::opt_text(self.speaker),
            latency_ms: self.latency_ms,
            partial: self.partial,
            ok: self.ok,
        }
    }
}

/// The turn an entry becomes in a thread.
pub open spec fn turn_in(id: i64, e: EntryV) -> TurnV {
    TurnV {
        thread_id: id,
        role: e.role,
        text: e.text,
        speaker: e.speaker,
        latency_ms: e.latency_ms,
        partial: e.partial,
        ok: e.ok,
    }
}

/// What is to be done to write an entry down.
#[derive(Debug, Clone)]
pub enum Recording {
    /// Nothing at all.
    Nothing,
    /// Append a turn.
    Append(Turn),
    /// Close a thread, where one is named, and open another for the entry; then
    /// say which it is.
    Open { close: Option<i64>, entry: Entry },
}

/// What a [`Recording`] says.
pub enum RecordingV {
    Nothing,
    Append(TurnV),
    Open { close: Option<i64>, entry: EntryV },
}

impl View for Recording {
    type V = RecordingV;

    open spec fn view(&self) -> RecordingV {
        match self {
            Recording::Nothing => RecordingV::Nothing,
            Recording::Append(t) => RecordingV::Append(t@),
            Recording::Open { close, entry } => RecordingV::Open { close: *close, entry: entry@ },
        }
    }
}

/// Write-through sink around a store, tracking which thread is currently open.
#[derive(Debug, Clone)]
pub struct ConversationSink {
    /// Whether there is a store to write to.
    stored: bool,
    cfg: ConversationsConfig,
    /// The thread turns are appended to. Opened on the first turn, so an idle
    /// daemon creates no empty threads.
    thread: Option<i64>,
    /// When a turn was last appended, in Unix time.
    last_turn_at: i64,
}

/// What a [`ConversationSink`] knows.
#[verifier::ext_equal]
pub struct SinkV {
    pub stored: bool,
    pub idle_secs: i64,
    pub retention_days: u32,
    pub thread: Option<i64>,
    pub last_turn_at: i64,
}

impl View for ConversationSink {
    type V = SinkV;

    closed spec fn view(&self) -> SinkV {
        SinkV {
            stored: self.stored,
            idle_secs: self.cfg.idle_secs,
            retention_days: self.cfg.retention_days,
            thread: self.thread,
            last_turn_at: self.last_turn_at,
        }
    }
}

/// A sink that has written nothing yet.
pub open spec fn fresh(cfg: ConversationsConfig, stored: bool) -> SinkV {
    SinkV {
        stored,
        idle_secs: cfg.idle_secs,
        retention_days: cfg.retention_days,
        thread: None,
        last_turn_at: 0,
    }
}

/// Whether an open thread has been silent for longer than it may be.
pub open spec fn is_over(s: SinkV, now: i64) -> bool {
    s.thread is Some && now - s.last_turn_at > s.idle_secs
}

/// What is to be done to write an entry down.
pub open spec fn recording_of(s: SinkV, e: EntryV, now: i64) -> RecordingV {
    if !s.stored || text::is_blank_text(e.text) {
        RecordingV::Nothing
    } else if s.thread is Some && !is_over(s, now) {
        RecordingV::Append(turn_in(s.thread->Some_0, e))
    } else {
        RecordingV::Open { close: s.thread, entry: e }
    }
}

/// The sink once it has said what is to be done.
pub open spec fn after_recording(s: SinkV, e: EntryV, now: i64) -> SinkV {
    match recording_of(s, e, now) {
        RecordingV::Nothing => s,
        RecordingV::Append(_) => SinkV { last_turn_at: now, ..s },
        RecordingV::Open { .. } => SinkV { thread: None, last_turn_at: now, ..s },
    }
}

/// What a tool's call is written down as.
pub open spec fn call_text(name: Seq<char>, args: Seq<char>) -> Seq<char> {
    if args.len() == 0 {
        name
    } else {
        name + " "@ + args
    }
}

/// A spoken user turn.
pub open spec fn user_entry(
    said: Seq<char>,
    speaker: Option<Seq<char>>,
    backend: Option<Seq<char>>,
) -> EntryV {
    EntryV {
        role: TurnRole::User,
        text: said,
        speaker,
        backend,
        latency_ms: None,
        partial: false,
        ok: None,
    }
}

/// The assistant's reply.
pub open spec fn reply_entry(
    said: Seq<char>,
    partial: bool,
    latency_ms: Option<i64>,
    backend: Option<Seq<char>>,
) -> EntryV {
    EntryV {
        role: TurnRole::Assistant,
        text: said,
        speaker: None,
        backend,
        latency_ms,
        partial,
        ok: None,
    }
}

/// A tool the assistant chose to invoke.
pub open spec fn call_entry(
    name: Seq<char>,
    args: Seq<char>,
    backend: Option<Seq<char>>,
) -> EntryV {
    EntryV {
        role: TurnRole::ToolCall,
        text: call_text(name, args),
        speaker: None,
        backend,
        latency_ms: None,
        partial: false,
        ok: None,
    }
}

/// What a tool handed back.
pub open spec fn result_entry(
    summary: Seq<char>,
    failed: bool,
    backend: Option<Seq<char>>,
) -> EntryV {
    EntryV {
        role: TurnRole::ToolResult,
        text: summary,
        speaker: None,
        backend,
        latency_ms: None,
        partial: false,
        ok: Some(!failed),
    }
}

fn make_turn(id: i64, e: &Entry) -> (r: Turn)
    ensures
        r@ == turn_in(id, e@),
{
    Turn {
        thread_id: id,
        role: e.role,
        text: e.text.clone(),
        speaker: copy_opt(&e.speaker),
        latency_ms: e.latency_ms,
        partial: e.partial,
        ok: e.ok,
    }
}

impl ConversationSink {
    /// Whether a store is to be opened at all. Where it is not, its file is
    /// never created.
    pub fn wants_store(cfg: &ConversationsConfig) -> (r: bool)
        ensures
            r == cfg.enabled,
    {
        cfg.enabled
    }

    /// A sink for a configuration, given whether its store could be opened. The
    /// assistant must still work without its history.
    pub fn open(cfg: ConversationsConfig, opened: bool) -> (r: ConversationSink)
        ensures
            r@ == fresh(cfg, cfg.enabled && opened),
    {
        ConversationSink { stored: cfg.enabled && opened, cfg, thread: None, last_turn_at: 0 }
    }

    /// A disabled sink.
    pub fn disabled() -> (r: ConversationSink)
        ensures
            r@ == fresh(
                ConversationsConfig { enabled: false, retention_days: 0, idle_secs: 0 },
                false,
            ),
    {
        ConversationSink {
            stored: false,
            cfg: ConversationsConfig { enabled: false, retention_days: 0, idle_secs: 0 },
            thread: None,
            last_turn_at: 0,
        }
    }

    /// Whether turns are actually being persisted.
    pub fn is_enabled(&self) -> (r: bool)
        ensures
            r == self@.stored,
    {
        self.stored
    }

    /// How long the last thread may have been silent for it to be resumed, where
    /// there is a store to ask.
    pub fn resumable_within(&self) -> (r: Option<i64>)
        ensures
            r == (if self@.stored {
                Some(self@.idle_secs)
            } else {
                None
            }),
    {
        if self.stored {
            Some(self.cfg.idle_secs)
        } else {
            None
        }
    }

    /// Adopt the most recent thread, where the store found one that is still
    /// open and within the idle window: its id, and when it was last written to.
    pub fn resume(&mut self, found: Option<(i64, i64)>)
        ensures
            final(self)@ == (match found {
                Some(t) => if old(self)@.stored {
                    SinkV { thread: Some(t.0), last_turn_at: t.1, ..old(self)@ }
                } else {
                    old(self)@
                },
                None => old(self)@,
            }),
    {
        if self.stored {
            if let Some(t) = found {
                self.thread = Some(t.0);
                self.last_turn_at = t.1;
            }
        }
    }

    /// What is to be done to write an entry down: nothing for a blank one, so
    /// that it opens no thread, and a fresh thread where the open one has been
    /// silent for too long — a long gap means the conversation is over, even
    /// though nothing explicitly closed it.
    fn write(&mut self, entry: Entry, now: i64) -> (r: Recording)
        ensures
            r@ == recording_of(old(self)@, entry@, now),
            final(self)@ == after_recording(old(self)@, entry@, now),
    {
        if !self.stored || blank(&entry.text) {
            return Recording::Nothing;
        }
        let silence: i128 = now as i128 - self.last_turn_at as i128;
        let open = self.thread;
        self.last_turn_at = now;
        if let Some(id) = open {
            if silence <= self.cfg.idle_secs as i128 {
                return Recording::Append(make_turn(id, &entry));
            }
        }
        self.thread = None;
        Recording::Open { close: open, entry }
    }

    /// The turn to append once a thread was opened for an entry, or nothing
    /// where none could be.
    pub fn opened(&mut self, entry: &Entry, id: Option<i64>) -> (r: Option<Turn>)
        ensures
            final(self)@ == (SinkV { thread: id, ..old(self)@ }),
            match r {
                Some(t) => id is Some && t@ == turn_in(id->Some_0, entry@),
                None => id is None,
            },
    {
        self.thread = id;
        match id {
            Some(i) => Some(make_turn(i, entry)),
            None => None,
        }
    }

    /// Record a spoken user turn, attributed to `speaker` when speaker
    /// verification produced a match.
    pub fn record_user(
        &mut self,
        said: &str,
        speaker: Option<&str>,
        backend: Option<&str>,
        now: i64,
    ) -> (r: Recording)
        ensures
            ({
                let e = user_entry(said@, text::opt_str(speaker), text::opt_str(backend));
                &&& r@ == recording_of(old(self)@, e, now)
                &&& final(self)@ == after_recording(old(self)@, e, now)
            }),
    {
        let entry = Entry {
            role: TurnRole::User,
            text: own(said),
            speaker: own_opt(speaker),
            backend: own_opt(backend),
            latency_ms: None,
            partial: false,
            ok: None,
        };
        self.write(entry, now)
    }

    /// Record the assistant's reply. `partial` marks one that was cut short by
    /// the user cancelling mid-generation.
    pub fn record_assistant(
        &mut self,
        said: &str,
        partial: bool,
        latency_ms: Option<i64>,
        backend: Option<&str>,
        now: i64,
    ) -> (r: Recording)
        ensures
            ({
                let e = reply_entry(said@, partial, latency_ms, text::opt_str(backend));
                &&& r@ == recording_of(old(self)@, e, now)
                &&& final(self)@ == after_recording(old(self)@, e, now)
            }),
    {
        let entry = Entry {
            role: TurnRole::Assistant,
            text: own(said),
            speaker: None,
            backend: own_opt(backend),
            latency_ms,
            partial,
            ok: None,
        };
        self.write(entry, now)
    }

    /// Record a tool the assistant chose to invoke.
    pub fn record_tool_call(
        &mut self,
        name: &str,
        args: &str,
        backend: Option<&str>,
        now: i64,
    ) -> (r: Recording)
        ensures
            ({
                let e = call_entry(name@, args@, text::opt_str(backend));
                &&& r@ == recording_of(old(self)@, e, now)
                &&& final(self)@ == after_recording(old(self)@, e, now)
            }),
    {
        let mut said = own(name);
        if !args.is_empty() {
            said.append(" ");
            said.append(args);
        }
        let entry = Entry {
            role: TurnRole::ToolCall,
            text: said,
            speaker: None,
            backend: own_opt(backend),
            latency_ms: None,
            partial: false,
            ok: None,
        };
        self.write(entry, now)
    }

    /// Record what a tool handed back, along with the executor's verdict on it.
    /// The verdict is stored because it is not legible in the text: a call that
    /// worked returns a payload ending in `"failed": []`.
    pub fn record_tool_result(
        &mut self,
        summary: &str,
        failed: bool,
        backend: Option<&str>,
        now: i64,
    ) -> (r: Recording)
        ensures
            ({
                let e = result_entry(summary@, failed, text::opt_str(backend));
                &&& r@ == recording_of(old(self)@, e, now)
                &&& final(self)@ == after_recording(old(self)@, e, now)
            }),
    {
        let entry = Entry {
            role: TurnRole::ToolResult,
            text: own(summary),
            speaker: None,
            backend: own_opt(backend),
            latency_ms: None,
            partial: false,
            ok: Some(!failed),
        };
        self.write(entry, now)
    }

    /// End the current thread, so that the next turn starts a fresh one, and say
    /// which is to be closed in the store.
    ///
    /// This deliberately **ends** the thread rather than deleting it: "forget"
    /// has always been a fresh-start affordance.
    pub fn close_thread(&mut self) -> (r: Option<i64>)
        ensures
            final(self)@ == (SinkV { thread: None, ..old(self)@ }),
            r == (if old(self)@.stored {
                old(self)@.thread
            } else {
                None
            }),
    {
        let open = self.thread;
        self.thread = None;
        if self.stored {
            open
        } else {
            None
        }
    }

    /// After how many days threads are to be dropped, where there is a store to
    /// sweep.
    pub fn purge_expired(&self) -> (r: Option<u32>)
        ensures
            r == (if self@.stored {
                Some(self@.retention_days)
            } else {
                None
            }),
    {
        if self.stored {
            Some(self.cfg.retention_days)
        } else {
            None
        }
    }
}

// ---------------------------------------------------------------------------
// Laws
// ---------------------------------------------------------------------------

/// A disabled sink is silent: whatever is recorded, nothing is to be written and
/// nothing changes.
pub proof fn law_a_disabled_sink_is_silent(s: SinkV, e: EntryV, now: i64)
    requires
        !s.stored,
    ensures
        recording_of(s, e, now) == RecordingV::Nothing,
        after_recording(s, e, now) == s,
{
}

/// A blank turn leaves no trace: it opens no thread, and does not keep one from
/// going idle.
pub proof fn law_a_blank_turn_leaves_no_trace(s: SinkV, e: EntryV, now: i64)
    requires
        text::is_blank_text(e.text),
    ensures
        recording_of(s, e, now) == RecordingV::Nothing,
        after_recording(s, e, now) == s,
{
}

/// A thread that was ended is not written to again: the next turn opens a fresh
/// one, and closes none.
pub proof fn law_an_ended_thread_stays_ended(s: SinkV, e: EntryV, now: i64)
    requires
        s.stored,
        !text::is_blank_text(e.text),
    ensures
        recording_of(SinkV { thread: None, ..s }, e, now) == (RecordingV::Open {
            close: None,
            entry: e,
        }),
{
}

/// A thread that went idle is over: it is closed before another is opened, and
/// never appended to.
pub proof fn law_an_idle_thread_is_over(s: SinkV, e: EntryV, now: i64)
    requires
        s.stored,
        !text::is_blank_text(e.text),
        is_over(s, now),
    ensures
        recording_of(s, e, now) == (RecordingV::Open { close: s.thread, entry: e }),
        after_recording(s, e, now).thread is None,
{
}

/// What follows in time follows in the same thread: once a turn was written to a
/// thread, another within the idle window is appended to it.
pub proof fn law_a_conversation_stays_together(
    s: SinkV,
    id: i64,
    e: EntryV,
    next: EntryV,
    now: i64,
    later: i64,
)
    requires
        s.stored,
        !text::is_blank_text(e.text),
        !text::is_blank_text(next.text),
        recording_of(s, e, now) is Open,
        later - now <= s.idle_secs,
    ensures
        ({
            let written = SinkV { thread: Some(id), ..after_recording(s, e, now) };
            recording_of(written, next, later) == RecordingV::Append(turn_in(id, next))
        }),
{
}

/// A resumed thread is continued: turns within the idle window of its last one
/// go to it, and not to a new one.
pub proof fn law_a_resumed_thread_is_continued(
    s: SinkV,
    id: i64,
    last_at: i64,
    e: EntryV,
    now: i64,
)
    requires
        s.stored,
        !text::is_blank_text(e.text),
        now - last_at <= s.idle_secs,
    ensures
        recording_of(
            SinkV { thread: Some(id), last_turn_at: last_at, ..s },
            e,
            now,
        ) == RecordingV::Append(turn_in(id, e)),
{
}

/// What is written is what was said: an appended turn is the entry, word for
/// word, in the thread that was open.
pub proof fn law_what_is_written_was_said(s: SinkV, e: EntryV, now: i64)
    ensures
        recording_of(s, e, now) matches RecordingV::Append(t) ==> s.thread == Some(t.thread_id)
            && t.text == e.text && t.role == e.role && t.speaker == e.speaker && t.ok == e.ok
            && t.partial == e.partial && t.latency_ms == e.latency_ms,
{
}

/// After any turn that is written, whether it is appended or opens a thread, the
/// time of the last turn is that turn's time; what the sink was set up with stays
/// as it was.
pub proof fn law_a_written_turn_sets_the_clock(s: SinkV, e: EntryV, now: i64)
    requires
        s.stored,
        !text::is_blank_text(e.text),
    ensures
        !(recording_of(s, e, now) is Nothing),
        after_recording(s, e, now).last_turn_at == now,
        after_recording(s, e, now).stored,
        after_recording(s, e, now).idle_secs == s.idle_secs,
        after_recording(s, e, now).retention_days == s.retention_days,
{
}

/// Where a thread is open, a turn is appended to it exactly where no more than
/// the idle window has passed since the last turn, and the thread then stays
/// open; past the window that thread is closed, and no thread is open until a new
/// one is named.
pub proof fn law_the_idle_window_is_exact(s: SinkV, id: i64, e: EntryV, now: i64)
    requires
        s.stored,
        s.thread == Some(id),
        !text::is_blank_text(e.text),
    ensures
        now - s.last_turn_at <= s.idle_secs ==> recording_of(s, e, now) is Append && recording_of(
            s,
            e,
            now,
        )->Append_0.thread_id == id && after_recording(s, e, now).thread == Some(id),
        now - s.last_turn_at > s.idle_secs ==> recording_of(s, e, now) is Open && recording_of(
            s,
            e,
            now,
        )->close == Some(id) && recording_of(s, e, now)->entry == e && after_recording(
            s,
            e,
            now,
        ).thread is None,
{
}

/// Once a turn was appended at `now`, another within the idle window of `now` is
/// appended to the same thread, however long ago the thread was opened.
pub proof fn law_an_appended_turn_keeps_the_thread(
    s: SinkV,
    id: i64,
    e: EntryV,
    next: EntryV,
    now: i64,
    later: i64,
)
    requires
        s.stored,
        s.thread == Some(id),
        !text::is_blank_text(e.text),
        !text::is_blank_text(next.text),
        now - s.last_turn_at <= s.idle_secs,
        later - now <= s.idle_secs,
    ensures
        recording_of(after_recording(s, e, now), next, later) is Append,
        recording_of(after_recording(s, e, now), next, later)->Append_0.thread_id == id,
        recording_of(after_recording(s, e, now), next, later)->Append_0.text == next.text,
        after_recording(after_recording(s, e, now), next, later).thread == Some(id),
        after_recording(after_recording(s, e, now), next, later).last_turn_at == later,
{
}

/// Once a turn was appended at `now`, one that comes after more than the idle
/// window has passed since `now` closes the thread.
pub proof fn law_silence_after_a_turn_ends_the_thread(
    s: SinkV,
    id: i64,
    e: EntryV,
    next: EntryV,
    now: i64,
    later: i64,
)
    requires
        s.stored,
        s.thread == Some(id),
        !text::is_blank_text(e.text),
        !text::is_blank_text(next.text),
        now - s.last_turn_at <= s.idle_secs,
        later - now > s.idle_secs,
    ensures
        recording_of(after_recording(s, e, now), next, later) is Open,
        recording_of(after_recording(s, e, now), next, later)->close == Some(id),
        recording_of(after_recording(s, e, now), next, later)->entry == next,
{
}

/// Each kind of turn is written down as what it is: who speaks, what is said, and
/// what is known of it; a call as the tool's name and, where there are any, its
/// arguments behind a blank.
pub proof fn law_a_turn_is_written_as_what_it_is(
    said: Seq<char>,
    who: Option<Seq<char>>,
    backend: Option<Seq<char>>,
    partial: bool,
    ms: Option<i64>,
    name: Seq<char>,
    args: Seq<char>,
    failed: bool,
)
    ensures
        ({
            let u = user_entry(said, who, backend);
            let a = reply_entry(said, partial, ms, backend);
            let c = call_entry(name, args, backend);
            let r = result_entry(said, failed, backend);
            &&& u.role == TurnRole::User && a.role == TurnRole::Assistant
            &&& c.role == TurnRole::ToolCall && r.role == TurnRole::ToolResult
            &&& u.text == said && a.text == said && r.text == said
            &&& u.speaker == who && a.speaker is None && c.speaker is None && r.speaker is None
            &&& u.backend == backend && a.backend == backend && c.backend == backend && r.backend
                == backend
            &&& a.latency_ms == ms && a.partial == partial
            &&& !u.partial && !c.partial && !r.partial
            &&& r.ok == Some(!failed) && u.ok is None && a.ok is None && c.ok is None
            &&& args.len() == 0 ==> c.text == name
            &&& args.len() > 0 ==> c.text == name + seq![' '] + args
        }),
{
    reveal_strlit(" ");
    assert(" "@ == seq![' ']);
}

/// A sink writes where it is switched on and its store could be opened, and
/// starts with no thread; what it was set up with is what it goes by.
pub proof fn law_a_sink_starts_as_it_is_set_up(cfg: ConversationsConfig, stored: bool)
    ensures
        fresh(cfg, stored).stored == stored,
        fresh(cfg, stored).idle_secs == cfg.idle_secs,
        fresh(cfg, stored).retention_days == cfg.retention_days,
        fresh(cfg, stored).thread is None,
{
}

} // verus!
