use fono::conversation_log::{
    ConversationSink, ConversationsConfig, Recording, Turn, TurnRole,
};

fn cfg(enabled: bool) -> ConversationsConfig {
    ConversationsConfig { enabled, retention_days: 90, idle_secs: 300 }
}

/// A store in memory, doing what a sink asks of it.
#[derive(Default)]
struct Store {
    /// Whether each thread is still open, and when it was last written to.
    threads: Vec<(bool, i64)>,
    turns: Vec<Turn>,
    /// A store that opens no threads.
    broken: bool,
}

impl Store {
    fn open_thread(&mut self, now: i64) -> Option<i64> {
        if self.broken {
            return None;
        }
        self.threads.push((true, now));
        Some(self.threads.len() as i64 - 1)
    }

    fn append(&mut self, turn: Turn, now: i64) {
        self.threads[turn.thread_id as usize].1 = now;
        self.turns.push(turn);
    }

    fn perform(&mut self, sink: &mut ConversationSink, what: Recording, now: i64) {
        match what {
            Recording::Nothing => {}
            Recording::Append(turn) => self.append(turn, now),
            Recording::Open { close, entry } => {
                if let Some(id) = close {
                    self.threads[id as usize].0 = false;
                }
                let id = self.open_thread(now);
                if let Some(turn) = sink.opened(&entry, id) {
                    self.append(turn, now);
                }
            }
        }
    }

    fn close(&mut self, sink: &mut ConversationSink) {
        if let Some(id) = sink.close_thread() {
            self.threads[id as usize].0 = false;
        }
    }

    /// The last thread, where it is open and was written to recently enough.
    fn resumable(&self, within: i64, now: i64) -> Option<(i64, i64)> {
        let id = self.threads.len().checked_sub(1)?;
        let (open, last_at) = self.threads[id];
        (open && now - last_at <= within).then_some((id as i64, last_at))
    }
}

/// Say something to a sink over a store.
fn user(sink: &mut ConversationSink, store: &mut Store, text: &str, speaker: Option<&str>, now: i64) {
    let what = sink.record_user(text, speaker, Some("groq"), now);
    store.perform(sink, what, now);
}

#[test]
fn disabled_sink_creates_no_file() {
    assert!(!ConversationSink::wants_store(&cfg(false)), "opt-out must not create the database");
    let mut sink = ConversationSink::open(cfg(false), true);
    assert!(matches!(sink.record_user("hello", Some("Alex"), Some("groq"), 1), Recording::Nothing));
    assert!(matches!(
        sink.record_assistant("hi", false, None, Some("groq"), 2),
        Recording::Nothing
    ));
    assert!(!sink.is_enabled());
    assert_eq!(sink.resumable_within(), None);
    assert_eq!(sink.purge_expired(), None);
}

#[test]
fn turns_are_persisted_with_speaker() {
    let mut store = Store::default();
    let mut sink = ConversationSink::open(cfg(true), true);
    user(&mut sink, &mut store, "turn on the lights", Some("Alex"), 10);
    let what = sink.record_tool_call("light.turn_on", "{}", Some("groq"), 11);
    store.perform(&mut sink, what, 11);
    let what = sink.record_tool_result("ok", false, Some("groq"), 12);
    store.perform(&mut sink, what, 12);
    let what = sink.record_assistant("Done.", false, Some(120), Some("groq"), 13);
    store.perform(&mut sink, what, 13);

    assert_eq!(store.threads.len(), 1);
    let speakers: Vec<&str> = store.turns.iter().filter_map(|t| t.speaker.as_deref()).collect();
    assert_eq!(speakers, vec!["Alex"]);
    let roles: Vec<_> = store.turns.iter().map(|t| t.role).collect();
    assert_eq!(
        roles,
        vec![TurnRole::User, TurnRole::ToolCall, TurnRole::ToolResult, TurnRole::Assistant]
    );
    assert_eq!(store.turns[0].speaker.as_deref(), Some("Alex"));
    assert_eq!(store.turns[3].latency_ms, Some(120));
    assert_eq!(store.turns[1].text, "light.turn_on {}");
    assert_eq!(store.turns[2].ok, Some(true));
    assert_eq!(store.turns[3].ok, None);
}

#[test]
fn empty_turns_are_not_recorded() {
    let mut store = Store::default();
    let mut sink = ConversationSink::open(cfg(true), true);
    let what = sink.record_assistant("   ", false, None, None, 5);
    store.perform(&mut sink, what, 5);
    assert_eq!(store.threads.len(), 0, "blank turns must not open a thread");
}

#[test]
fn close_then_record_starts_a_new_thread() {
    let mut store = Store::default();
    let mut sink = ConversationSink::open(cfg(true), true);
    user(&mut sink, &mut store, "first", None, 10);
    store.close(&mut sink);
    user(&mut sink, &mut store, "second", None, 11);
    assert_eq!(store.threads.len(), 2);
    assert_eq!(sink.close_thread(), Some(1));
    assert_eq!(sink.close_thread(), None, "nothing is open to close");
}

#[test]
fn resume_picks_up_a_recent_thread() {
    let mut store = Store::default();
    {
        let mut sink = ConversationSink::open(cfg(true), true);
        user(&mut sink, &mut store, "before the restart", Some("Alex"), 100);
        let what = sink.record_assistant("noted", false, None, None, 101);
        store.perform(&mut sink, what, 101);
    }
    // A "restart": brand-new sink over the same store.
    let mut sink = ConversationSink::open(cfg(true), true);
    let found = store.resumable(sink.resumable_within().expect("there is a store"), 200);
    sink.resume(found);
    assert_eq!(store.turns.len(), 2);
    assert_eq!(store.turns[0].text, "before the restart");
    assert_eq!(store.turns[0].speaker.as_deref(), Some("Alex"));

    // Continuing appends to the resumed thread, not a new one.
    user(&mut sink, &mut store, "after the restart", None, 201);
    assert_eq!(store.threads.len(), 1);
    assert_eq!(store.turns[2].thread_id, 0);
}

#[test]
fn resume_skips_a_closed_thread() {
    let mut store = Store::default();
    {
        let mut sink = ConversationSink::open(cfg(true), true);
        user(&mut sink, &mut store, "done talking", None, 10);
        store.close(&mut sink);
    }
    let mut sink = ConversationSink::open(cfg(true), true);
    let found = store.resumable(sink.resumable_within().expect("there is a store"), 11);
    assert!(found.is_none(), "an ended thread must not resume");
    sink.resume(found);
    user(&mut sink, &mut store, "hello again", None, 12);
    assert_eq!(store.threads.len(), 2);
}

#[test]
fn a_long_silence_ends_a_thread() {
    let mut store = Store::default();
    let mut sink = ConversationSink::open(cfg(true), true);
    user(&mut sink, &mut store, "one", None, 1_000);
    user(&mut sink, &mut store, "two", None, 1_300);
    assert_eq!(store.threads.len(), 1, "exactly the idle window is not over it");
    user(&mut sink, &mut store, "three", None, 1_601);
    assert_eq!(store.threads.len(), 2);
    assert!(!store.threads[0].0, "the old thread was closed");
    assert_eq!(store.turns[2].thread_id, 1);
    assert!(matches!(sink.record_user(" \n", None, None, 9_999), Recording::Nothing));
    user(&mut sink, &mut store, "four", None, 1_700);
    assert_eq!(store.threads.len(), 2, "a blank turn is no turn");
}

#[test]
fn a_store_that_opens_no_thread_loses_the_turn_and_nothing_else() {
    let mut store = Store { broken: true, ..Store::default() };
    let mut sink = ConversationSink::open(cfg(true), true);
    user(&mut sink, &mut store, "lost", None, 1);
    assert!(store.turns.is_empty());
    store.broken = false;
    user(&mut sink, &mut store, "kept", None, 2);
    assert_eq!(store.turns.len(), 1);
}

#[test]
fn a_store_that_could_not_be_opened_disables_the_sink() {
    let mut sink = ConversationSink::open(cfg(true), false);
    assert!(!sink.is_enabled());
    sink.resume(Some((3, 4)));
    assert!(matches!(sink.record_user("x", None, None, 5), Recording::Nothing));
    assert_eq!(sink.close_thread(), None);
    assert!(!ConversationSink::disabled().is_enabled());
}

#[test]
fn a_sweep_goes_by_the_configured_retention() {
    assert_eq!(ConversationSink::open(cfg(true), true).purge_expired(), Some(90));
}

#[test]
fn a_failed_tool_and_a_partial_reply_are_marked() {
    let mut sink = ConversationSink::open(cfg(true), true);
    sink.resume(Some((7, 0)));
    match sink.record_tool_result("no", true, None, 1) {
        Recording::Append(t) => {
            assert_eq!(t.ok, Some(false));
            assert_eq!(t.thread_id, 7);
        }
        other => panic!("{other:?}"),
    }
    match sink.record_assistant("I was ab", true, None, None, 2) {
        Recording::Append(t) => assert!(t.partial),
        other => panic!("{other:?}"),
    }
    match sink.record_tool_call("light.turn_on", "", None, 3) {
        Recording::Append(t) => assert_eq!(t.text, "light.turn_on"),
        other => panic!("{other:?}"),
    }
}
