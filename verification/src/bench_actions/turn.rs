//! What one benchmark utterance produced, as observed from outside the turn.
//!
//! Everything that decides whether a command works belongs to the assistant turn
//! itself, and none of it is done again here: an observation only says what was
//! heard and what was called, in order.

use vstd::prelude::*;

use crate::text;
use crate::text::{copy_opt, own, trim};

verus! {

/// One tool call and what the executor made of it.
#[derive(Debug, Clone)]
pub struct ObservedCall {
    pub name: String,
    /// The arguments exactly as the model emitted them. A model that emits
    /// invalid JSON is a finding, not a parse error.
    pub arguments: String,
    /// The executor's own prose verdict, which is also what the model read
    /// before deciding whether to try again.
    pub outcome: Option<String>,
    /// Whether the executor called it a failure.
    pub failed: bool,
}

/// What an [`ObservedCall`] says.
#[verifier::ext_equal]
pub struct ObservedCallV {
    pub name: Seq<char>,
    pub arguments: Seq<char>,
    pub outcome: Option<Seq<char>>,
    pub failed: bool,
}

impl View for ObservedCall {
    type V = ObservedCallV;

    open spec fn view(&self) -> ObservedCallV {
        ObservedCallV {
            name: self.name@,
            arguments: self.arguments@,
            outcome: text::opt_text(self.outcome),
            failed: self.failed,
        }
    }
}

/// What one utterance produced.
///
/// Taken from the turn's own record, not read back out of conversation history:
/// a turn that used a tool clears history when it ends.
#[derive(Debug, Clone)]
pub struct TurnObservation {
    /// The spoken reply, as the user would have heard it.
    pub reply: String,
    /// Every tool call the model issued, in order. The first is what scores
    /// routing; the rest are the recovery ladder at work.
    pub calls: Vec<ObservedCall>,
    /// How long the whole turn took, in milliseconds.
    pub elapsed_ms: u64,
    /// Whether the turn reported having produced anything at all.
    pub produced: bool,
    /// Whether the reply was cut off part way through.
    pub aborted: bool,
}

/// What a [`TurnObservation`] says.
#[verifier::ext_equal]
pub struct TurnObservationV {
    pub reply: Seq<char>,
    pub calls: Seq<ObservedCallV>,
    pub elapsed_ms: u64,
    pub produced: bool,
    pub aborted: bool,
}

/// What some calls say.
pub open spec fn call_views(v: Seq<ObservedCall>) -> Seq<ObservedCallV> {
    v.map_values(|c: ObservedCall| c@)
}

impl View for TurnObservation {
    type V = TurnObservationV;

    open spec fn view(&self) -> TurnObservationV {
        TurnObservationV {
            reply: self.reply@,
            calls: call_views(self.calls@),
            elapsed_ms: self.elapsed_ms,
            produced: self.produced,
            aborted: self.aborted,
        }
    }
}

/// The model's opening move.
pub open spec fn opening(obs: TurnObservationV) -> Option<ObservedCallV> {
    if obs.calls.len() > 0 {
        Some(obs.calls[0])
    } else {
        None
    }
}

/// Whether a repeat could have doubled an effect in the world: some call did
/// something and was not the last.
pub open spec fn is_doubled(calls: Seq<ObservedCallV>) -> bool {
    exists|i: int| 0 <= i < calls.len() - 1 && !(#[trigger] calls[i]).failed
}

impl TurnObservation {
    /// The model's opening move, which is what routing is scored against. The
    /// gap between it and the last call is the measured value of the recovery
    /// ladder.
    pub fn first_call(&self) -> (r: Option<&ObservedCall>)
        ensures
            match r {
                Some(c) => opening(self@) == Some(c@),
                None => opening(self@) is None,
            },
    {
        if self.calls.len() == 0 {
            None
        } else {
            assert(self@.calls[0] == self.calls@[0]@);
            Some(&self.calls[0])
        }
    }

    /// True when a repeat could have doubled an effect in the world: the model
    /// called again after a call that did something.
    ///
    /// A repeat after a refusal is not this. Nothing moved either time, and
    /// charging the model for it would punish the recovery the ladder exists to
    /// provide.
    pub fn doubled(&self) -> (r: bool)
        ensures
            r == is_doubled(self@.calls),
    {
        let ghost all = self@.calls;
        let mut i: usize = 0;
        while i < self.calls.len()
            invariant
                i <= self.calls@.len(),
                all == call_views(self.calls@),
                forall|k: int|
                    0 <= k < i && k < all.len() - 1 ==> (#[trigger] all[k]).failed,
            decreases self.calls.len() - i,
        {
            assert(all[i as int] == self.calls@[i as int]@);
            if i + 1 < self.calls.len() && !self.calls[i].failed {
                return true;
            }
            i = i + 1;
        }
        false
    }
}

// ---------------------------------------------------------------------------
// What the turn is given
// ---------------------------------------------------------------------------

/// What one utterance is said with.
///
/// There is no microphone, so the text arrives transcribed; and no speaker, so
/// nothing is spoken back. Everything else is what a spoken turn would have.
#[derive(Debug, Clone)]
pub struct TurnRequest {
    /// How long a conversation is remembered, in seconds.
    pub window_secs: u64,
    /// How many turns are remembered.
    pub max_turns: usize,
    pub instructions: String,
    /// The language the user's configuration supplies. The utterance's own is
    /// not declared: guessing it is part of what is measured.
    pub language: Option<String>,
    pub pre_transcribed: String,
}

/// What an utterance is said with: a history of its own, of at least a minute,
/// because carrying context between fixtures would make the score depend on
/// their order.
pub fn turn_request(
    window_minutes: u32,
    max_turns: u32,
    prompt: &str,
    language: &Option<String>,
    utterance: &str,
) -> (r: TurnRequest)
    ensures
        r.window_secs == 60 * (if window_minutes == 0 {
            1
        } else {
            window_minutes as int
        }),
        r.max_turns == max_turns,
        r.instructions@ == text::trimmed(prompt@),
        text::opt_text(r.language) == text::opt_text(*language),
        r.pre_transcribed@ == utterance@,
{
    let minutes: u64 = if window_minutes == 0 {
        1
    } else {
        window_minutes as u64
    };
    TurnRequest {
        window_secs: 60 * minutes,
        max_turns: max_turns as usize,
        instructions: trim(prompt),
        language: copy_opt(language),
        pre_transcribed: own(utterance),
    }
}

// ---------------------------------------------------------------------------
// Laws
// ---------------------------------------------------------------------------

/// A repeat after a refusal cannot double anything: calls that all failed but
/// for the last, however many, doubled nothing.
pub proof fn law_a_refusal_doubles_nothing(calls: Seq<ObservedCallV>)
    requires
        forall|i: int| 0 <= i < calls.len() - 1 ==> (#[trigger] calls[i]).failed,
    ensures
        !is_doubled(calls),
{
}

/// One call is not a repeat.
pub proof fn law_one_call_is_no_repeat(calls: Seq<ObservedCallV>)
    requires
        calls.len() <= 1,
    ensures
        !is_doubled(calls),
{
}

/// What is doubled stays doubled: nothing called afterwards takes it back.
pub proof fn law_doubling_cannot_be_taken_back(calls: Seq<ObservedCallV>, next: ObservedCallV)
    requires
        is_doubled(calls),
    ensures
        is_doubled(calls.push(next)),
{
    let i = choose|i: int| 0 <= i < calls.len() - 1 && !(#[trigger] calls[i]).failed;
    assert(!calls.push(next)[i].failed);
}

/// The call that opens a turn is its first, and a turn without a call has none.
pub proof fn law_a_turn_opens_with_its_first_call(obs: TurnObservationV)
    ensures
        obs.calls.len() == 0 <==> opening(obs) is None,
        obs.calls.len() > 0 ==> opening(obs) == Some(obs.calls[0]),
{
}

/// A command is doubled where a call comes after one that did not fail: what
/// failed and is tried again doubles nothing, and neither does the last call.
pub proof fn law_a_call_after_a_success_doubles(calls: Seq<ObservedCallV>, c: ObservedCallV)
    ensures
        is_doubled(calls.push(c)) <==> exists|i: int|
            0 <= i < calls.len() && !(#[trigger] calls[i]).failed,
        !is_doubled(Seq::empty()),
        !is_doubled(seq![c]),
{
    let all = calls.push(c);
    if is_doubled(all) {
        let i = choose|i: int| 0 <= i < all.len() - 1 && !(#[trigger] all[i]).failed;
        assert(all[i] == calls[i]);
    }
    assert forall|i: int| 0 <= i < calls.len() && !(#[trigger] calls[i]).failed implies is_doubled(
        all,
    ) by {
        assert(all[i] == calls[i]);
    }
}

} // verus!
