//! Which local models a configuration needs, whether fetching them is worth a
//! notification, and what that says.
//!
//! A first run may fetch three models — two small ones that land in seconds and
//! one large one. A notification for the quick ones is noise; a silent download
//! of several minutes, on a start nobody watches, looks exactly like a hang. So
//! the transfer is watched once bytes are actually moving, and both the verdict
//! and the time left are read off the measured rate.
//!
//! A rate is held as what was measured, so many bytes in so many nanoseconds, and
//! everything is worked out from it exactly.

use vstd::prelude::*;

use crate::decimal::big_number;
use crate::order;
use crate::text;
use crate::text::{copy_texts, join, number, own, same};

verus! {

/// Outcome of making sure of a model, for callers that speak up only on the
/// first download.
#[derive(Debug, Clone, Copy, PartialEq, Eq, Structural)]
pub enum EnsureOutcome {
    /// The model file was already on disk; nothing was downloaded.
    AlreadyPresent,
    /// The model file was missing and a download succeeded.
    Downloaded,
    /// The configured model name is not in the registry — nothing that can be
    /// downloaded. The existing file, if any, is to be left alone.
    Unknown,
}

/// How long the transfer is watched, once bytes are moving, in milliseconds.
pub const RATE_SAMPLE_MS: u64 = 3_000;

/// How long to wait for the first byte, in milliseconds.
pub const FIRST_BYTE_TIMEOUT_MS: u64 = 20_000;

/// How often to look for it, in milliseconds.
pub const FIRST_BYTE_POLL_MS: u64 = 100;

/// Only downloads projected to run longer than this are worth interrupting the
/// user for, in nanoseconds.
pub const NOTIFY_THRESHOLD_NANOS: u64 = 15_000_000_000;

/// The shortest time a rate is measured over, in nanoseconds.
pub const LEAST_NANOS: u64 = 1_000_000;

/// A minute in nanoseconds.
pub const MINUTE_NANOS: u64 = 60_000_000_000;

// ---------------------------------------------------------------------------
// Is it worth a notification?
// ---------------------------------------------------------------------------

/// A measured transfer rate: so many bytes in so many nanoseconds.
#[derive(Debug, Clone, Copy, PartialEq, Eq, Structural)]
pub struct Rate {
    pub bytes: u64,
    pub nanos: u64,
}

/// A time left: `nanos` divided by `parts` nanoseconds.
#[derive(Debug, Clone, Copy, PartialEq, Eq, Structural)]
pub struct Remaining {
    pub nanos: u128,
    pub parts: u64,
}

/// Whether a rate is so low that nothing can be projected from it: under a
/// thousand bytes per second.
pub open spec fn is_stalled(r: Rate) -> bool {
    r.bytes * 1_000_000_000 < 1_000 * r.nanos
}

/// The bytes of a download that are still to come.
pub open spec fn bytes_left(total_mb: u32, done: u64) -> nat {
    let total = total_mb * 1_000_000;
    (if total >= done {
        total - done
    } else {
        0
    }) as nat
}

/// The time left, where the transfer moved.
pub open spec fn time_left(total_mb: u32, done: u64, rate: Rate) -> Option<Remaining> {
    if is_stalled(rate) {
        None
    } else {
        Some(
            Remaining {
                nanos: (bytes_left(total_mb, done) * rate.nanos) as u128,
                parts: rate.bytes,
            },
        )
    }
}

/// Time left on a download of `total_mb`, given the bytes already in and the
/// measured rate. `None` when nothing moved while it was watched: there is then
/// no basis to either estimate or stay silent.
pub fn remaining_secs(total_mb: u32, done_bytes: u64, rate: Rate) -> (r: Option<Remaining>)
    ensures
        r == time_left(total_mb, done_bytes, rate),
        r matches Some(t) ==> t.nanos == bytes_left(total_mb, done_bytes) * rate.nanos,
        r matches Some(t) ==> (rate.nanos > 0 ==> t.parts > 0),
{
    if (rate.bytes as u128) * 1_000_000_000 < 1_000 * (rate.nanos as u128) {
        return None;
    }
    let total: u64 = total_mb as u64 * 1_000_000;
    let left: u64 = if total >= done_bytes {
        total - done_bytes
    } else {
        0
    };
    assert(left * rate.nanos <= u128::MAX) by (nonlinear_arith)
        requires
            left <= u64::MAX,
            rate.nanos <= u64::MAX,
    ;
    Some(Remaining { nanos: left as u128 * rate.nanos as u128, parts: rate.bytes })
}

/// Whether a download that has run for a while will be over within the
/// threshold.
pub open spec fn is_soon_over(elapsed_nanos: u64, left: Remaining) -> bool {
    elapsed_nanos * left.parts + left.nanos < NOTIFY_THRESHOLD_NANOS * left.parts
}

/// Whether a download is worth a notification. A measured, short finish time is
/// the one case to stay quiet; no measurement at all is precisely when the run
/// looks like a hang.
pub open spec fn is_worth_saying(left: Option<Remaining>, elapsed_nanos: u64) -> bool {
    left matches Some(t) ==> !is_soon_over(elapsed_nanos, t)
}

/// Whether a download is worth a notification.
pub fn would_notify(left: &Option<Remaining>, elapsed_nanos: u64) -> (r: bool)
    ensures
        r == is_worth_saying(*left, elapsed_nanos),
{
    match left {
        None => true,
        Some(t) => {
            if elapsed_nanos >= NOTIFY_THRESHOLD_NANOS {
                assert(elapsed_nanos * t.parts >= NOTIFY_THRESHOLD_NANOS * t.parts)
                    by (nonlinear_arith)
                    requires
                        elapsed_nanos >= NOTIFY_THRESHOLD_NANOS,
                        t.parts >= 0,
                ;
                return true;
            }
            let spare: u64 = NOTIFY_THRESHOLD_NANOS - elapsed_nanos;
            assert(spare * t.parts <= u128::MAX) by (nonlinear_arith)
                requires
                    spare <= u64::MAX,
                    t.parts <= u64::MAX,
            ;
            assert(spare * t.parts == NOTIFY_THRESHOLD_NANOS * t.parts - elapsed_nanos * t.parts)
                by (nonlinear_arith)
                requires
                    spare == NOTIFY_THRESHOLD_NANOS - elapsed_nanos,
            ;
            t.nanos >= spare as u128 * t.parts as u128
        },
    }
}

/// What was measured of a transfer: the bytes in so far, and the rate while it
/// was watched.
pub open spec fn measured(start: u64, anchor: u64, now: u64, window_nanos: u64) -> (u64, Rate) {
    (
        (if now >= start {
            now - start
        } else {
            0
        }) as u64,
        Rate {
            bytes: (if now >= anchor {
                now - anchor
            } else {
                0
            }) as u64,
            nanos: if window_nanos >= LEAST_NANOS {
                window_nanos
            } else {
                LEAST_NANOS
            },
        },
    )
}

/// What was measured of a transfer.
///
/// The rate is anchored to the first byte, not to the call: connection setup is
/// dead time that would otherwise be averaged in and inflate the estimate.
pub fn sample(start: u64, anchor: u64, now: u64, window_nanos: u64) -> (r: (u64, Rate))
    ensures
        r == measured(start, anchor, now, window_nanos),
        r.1.nanos > 0,
{
    let done: u64 = if now >= start {
        now - start
    } else {
        0
    };
    let bytes: u64 = if now >= anchor {
        now - anchor
    } else {
        0
    };
    let nanos: u64 = if window_nanos >= LEAST_NANOS {
        window_nanos
    } else {
        LEAST_NANOS
    };
    (done, Rate { bytes, nanos })
}

/// What a look at the transfer shows.
#[derive(Debug, Clone, Copy, PartialEq, Eq, Structural)]
pub enum Look {
    /// Bytes are moving: so many are in.
    Moving(u64),
    /// Nothing arrived in time.
    GiveUp,
    /// Look again in a while.
    Again,
}

/// Whether the transfer has moved past where it stood.
pub fn first_byte(start_bytes: u64, now_bytes: u64, waited_ms: u64) -> (r: Look)
    ensures
        r == (if now_bytes > start_bytes {
            Look::Moving(now_bytes)
        } else if waited_ms >= FIRST_BYTE_TIMEOUT_MS {
            Look::GiveUp
        } else {
            Look::Again
        }),
{
    if now_bytes > start_bytes {
        Look::Moving(now_bytes)
    } else if waited_ms >= FIRST_BYTE_TIMEOUT_MS {
        Look::GiveUp
    } else {
        Look::Again
    }
}

// ---------------------------------------------------------------------------
// What it says
// ---------------------------------------------------------------------------

/// A number divided by another, to the nearest, the even one of two as near.
pub open spec fn nearest(a: int, b: int) -> int {
    let q = a / b;
    let rest = a % b;
    if 2 * rest > b || (2 * rest == b && q % 2 == 1) {
        q + 1
    } else {
        q
    }
}

/// A rate in tenths of a megabyte per second.
pub open spec fn tenths(r: Rate) -> nat {
    nearest(r.bytes * 10_000, r.nanos as int) as nat
}

/// A rate in words.
pub open spec fn rate_words(r: Rate) -> Seq<char> {
    "("@ + text::decimal(tenths(r) / 10) + "."@ + text::decimal(tenths(r) % 10) + " MB/s)"@
}

/// The minutes left, rounded up and held to what can be counted.
pub open spec fn minutes_left(t: Remaining) -> nat {
    let whole = MINUTE_NANOS * t.parts;
    let n = (t.nanos + whole - 1) / whole;
    (if n > u64::MAX {
        u64::MAX as int
    } else {
        n
    }) as nat
}

/// The time left and the rate in words.
pub open spec fn eta_words(t: Remaining, r: Rate) -> Seq<char> {
    if t.nanos < MINUTE_NANOS * t.parts {
        "less than a minute left "@ + rate_words(r)
    } else {
        "about "@ + text::decimal(minutes_left(t)) + " min left "@ + rate_words(r)
    }
}

fn rate_text(r: Rate) -> (s: String)
    requires
        r.nanos > 0,
    ensures
        s@ == rate_words(r),
{
    let a: u128 = r.bytes as u128 * 10_000;
    let b: u128 = r.nanos as u128;
    let q: u128 = a / b;
    let rest: u128 = a % b;
    let n: u128 = if 2 * rest > b || (2 * rest == b && q % 2 == 1) {
        proof {
            assert(q <= a) by (nonlinear_arith)
                requires
                    q == a / b,
                    b > 0,
                    a >= 0,
            ;
        }
        q + 1
    } else {
        q
    };
    let mut s = own("(");
    let whole = big_number(n / 10);
    s.append(&whole);
    s.append(".");
    let part = big_number(n % 10);
    s.append(&part);
    s.append(" MB/s)");
    s
}

/// Render "about 4 min left (5.2 MB/s)" from a remaining time and a rate.
pub fn eta_text(left: Remaining, rate: Rate) -> (s: String)
    requires
        left.parts > 0,
        rate.nanos > 0,
    ensures
        s@ == eta_words(left, rate),
{
    let speed = rate_text(rate);
    assert(MINUTE_NANOS * left.parts <= 0x1_0000_0000_0000_0000_0000_0000_0000) by (nonlinear_arith)
        requires
            left.parts <= u64::MAX,
            MINUTE_NANOS == 60_000_000_000,
    ;
    let minute: u128 = MINUTE_NANOS as u128 * left.parts as u128;
    assert(minute > 0) by (nonlinear_arith)
        requires
            minute == MINUTE_NANOS * left.parts,
            left.parts > 0,
            MINUTE_NANOS > 0,
    ;
    if left.nanos < minute {
        let mut s = own("less than a minute left ");
        s.append(&speed);
        return s;
    }
    let mut n: u128 = left.nanos / minute;
    let over = left.nanos % minute != 0;
    proof {
        lemma_rounded_up(left.nanos as int, minute as int);
    }
    let most: u128 = u64::MAX as u128;
    if n >= most {
        n = most;
    } else if over {
        n = n + 1;
    }
    assert(n == minutes_left(left));
    let mut s = own("about ");
    let minutes = big_number(n);
    s.append(&minutes);
    s.append(" min left ");
    s.append(&speed);
    s
}

proof fn lemma_rounded_up(a: int, b: int)
    requires
        a >= 0,
        b > 0,
    ensures
        (a + b - 1) / b == a / b + (if a % b != 0 {
            1int
        } else {
            0int
        }),
{
    let q = a / b;
    let r = a % b;
    vstd::arithmetic::div_mod::lemma_fundamental_div_mod(a, b);
    if r == 0 {
        assert(a + b - 1 == b * q + (b - 1));
        vstd::arithmetic::div_mod::lemma_fundamental_div_mod_converse(a + b - 1, b, q, b - 1);
    } else {
        assert(b * (q + 1) == b * q + b) by (nonlinear_arith);
        assert(a + b - 1 == b * (q + 1) + (r - 1));
        vstd::arithmetic::div_mod::lemma_fundamental_div_mod_converse(
            a + b - 1,
            b,
            q + 1,
            r - 1,
        );
    }
}

/// What is said of a download, where anything is: the body, with the time left
/// where it could be measured.
pub open spec fn notice_words(
    body: Seq<char>,
    total_mb: u32,
    elapsed_nanos: u64,
    sampled: Option<(u64, Rate)>,
) -> Option<Seq<char>> {
    let left = match sampled {
        Some((done, rate)) => time_left(total_mb, done, rate),
        None => None,
    };
    if !is_worth_saying(left, elapsed_nanos) {
        None
    } else {
        match left {
            Some(t) => Some(body + " — "@ + eta_words(t, sampled->Some_0.1)),
            None => Some(body),
        }
    }
}

/// What is said of a download, where anything is.
///
/// `sampled` is what was measured once bytes were moving, and nothing where none
/// ever did.
pub fn notice(
    body: &str,
    total_mb: u32,
    elapsed_nanos: u64,
    sampled: &Option<(u64, Rate)>,
) -> (r: Option<String>)
    requires
        sampled matches Some(m) ==> m.1.nanos > 0,
    ensures
        text::opt_text(r) == notice_words(body@, total_mb, elapsed_nanos, *sampled),
{
    let left = match sampled {
        Some(m) => remaining_secs(total_mb, m.0, m.1),
        None => None,
    };
    if !would_notify(&left, elapsed_nanos) {
        return None;
    }
    let mut s = own(body);
    if let Some(m) = sampled {
        if let Some(t) = left {
            s.append(" — ");
            let eta = eta_text(t, m.1);
            s.append(&eta);
        }
    }
    Some(s)
}

// ---------------------------------------------------------------------------
// Is a "ready" owed?
// ---------------------------------------------------------------------------

/// Where the notices about a download stand.
#[derive(Debug, Clone, Copy, PartialEq, Eq, Structural)]
pub struct DownloadNotices {
    /// A download was started, so a verdict is coming.
    pub pending: bool,
    /// The verdict has been reached.
    pub decided: bool,
    /// The user was told, which is what makes the matching "ready" owed.
    pub announced: bool,
}

/// What a claim comes to.
#[derive(Debug, Clone, Copy, PartialEq, Eq, Structural)]
pub enum Claim {
    /// Nothing was downloaded: nothing is owed.
    NotOwed,
    /// The verdict has to be waited for first.
    Wait,
    /// The verdict is in.
    Ready,
}

/// The notices once a download was started.
pub open spec fn once_started(n: DownloadNotices) -> DownloadNotices {
    DownloadNotices { pending: true, ..n }
}

/// The notices once the verdict is in.
pub open spec fn once_decided(n: DownloadNotices, told: bool) -> DownloadNotices {
    DownloadNotices { decided: true, announced: n.announced || told, ..n }
}

/// The notices once a claim was made.
pub open spec fn once_claimed(n: DownloadNotices) -> DownloadNotices {
    DownloadNotices { pending: false, ..n }
}

/// What a claim comes to.
pub open spec fn claim_of(n: DownloadNotices) -> Claim {
    if !n.pending {
        Claim::NotOwed
    } else if n.decided {
        Claim::Ready
    } else {
        Claim::Wait
    }
}

/// The notices once a claim was settled.
pub open spec fn once_settled(n: DownloadNotices) -> DownloadNotices {
    DownloadNotices { decided: false, announced: false, ..n }
}

impl DownloadNotices {
    /// Nothing was started yet.
    pub fn new() -> (r: DownloadNotices)
        ensures
            r == (DownloadNotices { pending: false, decided: false, announced: false }),
    {
        DownloadNotices { pending: false, decided: false, announced: false }
    }

    /// A download was started.
    pub fn started(&mut self)
        ensures
            *final(self) == once_started(*old(self)),
    {
        self.pending = true;
    }

    /// The verdict is in, and the user was told or was not.
    pub fn decide(&mut self, told: bool)
        ensures
            *final(self) == once_decided(*old(self), told),
    {
        if told {
            self.announced = true;
        }
        self.decided = true;
    }

    /// Claim the pending "ready", if one may be owed.
    pub fn claim(&mut self) -> (r: Claim)
        ensures
            *final(self) == once_claimed(*old(self)),
            r == claim_of(*old(self)),
    {
        if !self.pending {
            return Claim::NotOwed;
        }
        self.pending = false;
        if self.decided {
            Claim::Ready
        } else {
            Claim::Wait
        }
    }

    /// Settle a claim once the verdict is in, or has been waited for long
    /// enough: whether the "ready" is owed.
    ///
    /// It never arrives on its own: a start with every model cached, or one
    /// whose download was too quick to be worth mentioning, stays silent.
    pub fn take_download_notice(&mut self) -> (r: bool)
        ensures
            r == old(self).announced,
            *final(self) == once_settled(*old(self)),
    {
        let owed = self.announced;
        self.decided = false;
        self.announced = false;
        owed
    }
}

/// How long a verdict may take: waiting out the first byte, then the sample
/// window twice over, in milliseconds.
pub const VERDICT_TIMEOUT_MS: u64 = 26_000;

// ---------------------------------------------------------------------------
// What has to be downloaded
// ---------------------------------------------------------------------------

/// One model the current configuration needs that is not on disk yet: a
/// user-facing description and its approximate download size in MB.
#[derive(Debug, Clone)]
pub struct Pending {
    pub what: String,
    pub mb: u32,
}

impl View for Pending {
    type V = (Seq<char>, u32);

    open spec fn view(&self) -> (Seq<char>, u32) {
        (self.what@, self.mb)
    }
}

/// A configured speech model, and what is known of it.
#[derive(Debug, Clone)]
pub struct SttModel {
    pub name: String,
    /// Whether the registry knows it at the configured quantization, and its
    /// file is not on disk.
    pub missing: bool,
    /// Its size, where the registry knows it.
    pub mb: Option<u32>,
}

/// A configured language model, and what is known of it.
#[derive(Debug, Clone)]
pub struct LlmModel {
    pub name: String,
    /// The stem of the file it lives in, by which two names are one model.
    pub stem: String,
    /// Whether that file is on disk.
    pub present: bool,
    /// Its size, where the registry knows it.
    pub mb: Option<u32>,
}

/// A size, or nothing where it is not known.
pub open spec fn size_or_none(mb: Option<u32>) -> u32 {
    match mb {
        Some(n) => n,
        None => 0,
    }
}

/// What is to be downloaded for speech.
pub open spec fn stt_pending(stt: Option<SttModel>) -> Seq<(Seq<char>, u32)> {
    match stt {
        Some(m) => if m.missing {
            seq![("speech model "@ + m.name@, size_or_none(m.mb))]
        } else {
            Seq::empty()
        },
        None => Seq::empty(),
    }
}

/// What is to be downloaded for one role of a language model.
pub open spec fn llm_pending(role: Seq<char>, llm: Option<LlmModel>) -> Seq<(Seq<char>, u32)> {
    match llm {
        Some(m) => if m.present {
            Seq::empty()
        } else {
            seq![(role + " "@ + m.name@, size_or_none(m.mb))]
        },
        None => Seq::empty(),
    }
}

/// Whether two roles are filled by the same file, which the first of them has to
/// download.
pub open spec fn is_shared(a: Option<LlmModel>, b: Option<LlmModel>) -> bool {
    a matches Some(x) && b matches Some(y) && !x.present && x.stem@ == y.stem@
}

/// Everything that still has to be downloaded.
pub open spec fn all_pending(
    stt: Option<SttModel>,
    polish: Option<LlmModel>,
    assistant: Option<LlmModel>,
    tts_mb: Option<u32>,
) -> Seq<(Seq<char>, u32)> {
    stt_pending(stt) + llm_pending("cleanup model"@, polish) + (if is_shared(polish, assistant) {
        Seq::empty()
    } else {
        llm_pending("assistant model"@, assistant)
    }) + (match tts_mb {
        Some(mb) => seq![("text-to-speech voice"@, mb)],
        None => Seq::empty(),
    })
}

fn push_pending(out: &mut Vec<Pending>, what: String, mb: u32)
    ensures
        order::views(final(out)@) == order::views(old(out)@).push((what@, mb)),
{
    let ghost before = order::views(out@);
    let ghost one = (what@, mb);
    out.push(Pending { what, mb });
    assert(order::views(out@) =~= before.push(one));
}

fn size_known(mb: Option<u32>) -> (r: u32)
    ensures
        r == size_or_none(mb),
{
    match mb {
        Some(n) => n,
        None => 0,
    }
}

fn push_llm(out: &mut Vec<Pending>, role: &str, llm: &Option<LlmModel>)
    ensures
        order::views(final(out)@) == order::views(old(out)@) + llm_pending(role@, *llm),
{
    let ghost before = order::views(out@);
    if let Some(m) = llm {
        if !m.present {
            let mut what = own(role);
            what.append(" ");
            what.append(&m.name);
            push_pending(out, what, size_known(m.mb));
        }
    }
    assert(order::views(out@) =~= before + llm_pending(role@, *llm));
}

/// Everything the current configuration references that still has to be
/// downloaded: a role is `None` where nothing local fills it. Empty on every
/// start after the first, which is what keeps the notification from becoming
/// noise.
///
/// The cleanup and the assistant model are often the same file; it is listed
/// once.
pub fn pending_downloads(
    stt: &Option<SttModel>,
    polish: &Option<LlmModel>,
    assistant: &Option<LlmModel>,
    tts_mb: Option<u32>,
) -> (r: Vec<Pending>)
    ensures
        order::views(r@) == all_pending(*stt, *polish, *assistant, tts_mb),
{
    let mut out: Vec<Pending> = Vec::new();
    assert(order::views(out@) =~= Seq::empty());
    if let Some(m) = stt {
        if m.missing {
            let mut what = own("speech model ");
            what.append(&m.name);
            push_pending(&mut out, what, size_known(m.mb));
        }
    }
    assert(order::views(out@) =~= stt_pending(*stt));
    push_llm(&mut out, "cleanup model", polish);
    let ghost two = order::views(out@);
    let shared = match (polish, assistant) {
        (Some(x), Some(y)) => !x.present && same(&x.stem, &y.stem),
        _ => false,
    };
    if !shared {
        push_llm(&mut out, "assistant model", assistant);
    } else {
        assert(two + Seq::<(Seq<char>, u32)>::empty() =~= two);
    }
    let ghost three = order::views(out@);
    match tts_mb {
        Some(mb) => {
            push_pending(&mut out, own("text-to-speech voice"), mb);
            assert(order::views(out@) =~= three + seq![("text-to-speech voice"@, mb)]);
        },
        None => {
            assert(three + Seq::<(Seq<char>, u32)>::empty() =~= three);
        },
    }
    out
}

/// What everything weighs together.
pub open spec fn total_size(pending: Seq<(Seq<char>, u32)>) -> nat
    decreases pending.len(),
{
    if pending.len() == 0 {
        0
    } else {
        total_size(pending.drop_last()) + pending.last().1 as nat
    }
}

/// What everything weighs together, where that can be counted.
pub fn total_mb(pending: &Vec<Pending>) -> (r: Option<u32>)
    ensures
        match r {
            Some(n) => n == total_size(order::views(pending@)),
            None => total_size(order::views(pending@)) > u32::MAX,
        },
{
    let ghost all = order::views(pending@);
    let mut n: u32 = 0;
    for i in 0..pending.len()
        invariant
            all == order::views(pending@),
            n == total_size(all.take(i as int)),
    {
        proof {
            assert(all.take(i + 1).drop_last() == all.take(i as int));
            assert(all[i as int] == pending@[i as int]@);
        }
        match n.checked_add(pending[i].mb) {
            Some(m) => {
                n = m;
            },
            None => {
                proof {
                    lemma_total_grows(all, i + 1);
                }
                return None;
            },
        }
    }
    assert(all.take(all.len() as int) == all);
    Some(n)
}

proof fn lemma_total_grows(pending: Seq<(Seq<char>, u32)>, i: int)
    requires
        0 <= i <= pending.len(),
    ensures
        total_size(pending.take(i)) <= total_size(pending),
    decreases pending.len() - i,
{
    if i < pending.len() {
        assert(pending.take(i + 1).drop_last() == pending.take(i));
        lemma_total_grows(pending, i + 1);
    } else {
        assert(pending.take(i) == pending);
    }
}

/// The title and the body of a notification, and what the download weighs.
#[derive(Debug, Clone)]
pub struct Announcement {
    pub summary: String,
    pub body: String,
    pub total_mb: u32,
}

/// The title of the notification.
pub open spec fn title_words(count: nat) -> Seq<char> {
    if count == 1 {
        "Fono — downloading a model"@
    } else {
        "Fono — downloading "@ + text::decimal(count) + " models"@
    }
}

/// The body of the notification.
pub open spec fn body_words(pending: Seq<(Seq<char>, u32)>) -> Seq<char> {
    let what = text::joined(pending.map_values(|p: (Seq<char>, u32)| p.0), ", "@);
    if total_size(pending) > 0 {
        what + " ("@ + text::decimal(total_size(pending)) + " MB)"@
    } else {
        what
    }
}

fn pending_names(pending: &Vec<Pending>) -> (r: Vec<String>)
    ensures
        text::texts(r@) == order::views(pending@).map_values(|p: (Seq<char>, u32)| p.0),
{
    let mut out: Vec<String> = Vec::new();
    for i in 0..pending.len()
        invariant
            out@.len() == i,
            forall|k: int| 0 <= k < i ==> (#[trigger] out@[k])@ == pending@[k]@.0,
    {
        out.push(pending[i].what.clone());
    }
    assert(text::texts(out@) =~= order::views(pending@).map_values(
        |p: (Seq<char>, u32)| p.0,
    ));
    out
}

/// What to announce of a first-run download, if there is one: all the missing
/// models in a single notification rather than one per model.
pub fn announce_pending_downloads(pending: &Vec<Pending>) -> (r: Option<Announcement>)
    requires
        total_size(order::views(pending@)) <= u32::MAX,
    ensures
        match r {
            Some(a) => pending@.len() > 0 && a.summary@ == title_words(pending@.len())
                && a.body@ == body_words(order::views(pending@)) && a.total_mb == total_size(
                order::views(pending@),
            ),
            None => pending@.len() == 0,
        },
{
    if pending.len() == 0 {
        return None;
    }
    let total = match total_mb(pending) {
        Some(n) => n,
        None => 0,
    };
    let summary = if pending.len() == 1 {
        own("Fono — downloading a model")
    } else {
        let mut s = own("Fono — downloading ");
        let digits = number(pending.len() as u64);
        s.append(&digits);
        s.append(" models");
        s
    };
    let names = pending_names(pending);
    let mut body = join(&names, ", ");
    if total > 0 {
        body.append(" (");
        let digits = number(total as u64);
        body.append(&digits);
        body.append(" MB)");
    }
    Some(Announcement { summary, body, total_mb: total })
}

// ---------------------------------------------------------------------------
// Speech and language models
// ---------------------------------------------------------------------------

/// A text as Rust quotes it: what the `Debug` of `str` writes.
pub uninterp spec fn debug_text(s: Seq<char>) -> Seq<char>;

/// `format!` with `{:?}` on a text, which is the `Debug` of `str`, under the name
/// [`debug_text`].
#[verifier::external_body]
fn quoted(s: &str) -> (r: String)
    ensures
        r@ == debug_text(s@),
{
    format!("{s:?}")
}

/// What the registry says of a configured speech model.
#[derive(Debug, Clone)]
pub enum SttLookup<Q> {
    /// It knows no model of that name.
    Unknown,
    /// The configured quantization is no word it knows.
    BadQuantization,
    /// The model does not ship at that quantization, for this reason.
    Refused(String),
    /// The model, at a quantization it ships in.
    Found(Q),
}

/// What is said of a quantization that is none.
pub open spec fn bad_quantization(shown: Seq<char>) -> Seq<char> {
    "invalid `[stt.local].quantization = "@ + shown
        + "` — expected `auto`, `fp16`, `q5_1`, or `q8_0`"@
}

/// What a configured speech model and its quantization come to: nothing where
/// the name is unknown, which callers turn into a warning, and an error where
/// the user pinned a quantization that is none or that the model does not ship
/// in.
pub fn resolve_local_stt<Q>(lookup: SttLookup<Q>, quantization: &str) -> (r: Result<
    Option<Q>,
    String,
>)
    ensures
        match lookup {
            SttLookup::Unknown => r == Ok::<Option<Q>, String>(None),
            SttLookup::BadQuantization => r matches Err(e) && e@ == bad_quantization(
                debug_text(quantization@),
            ),
            SttLookup::Refused(why) => r matches Err(e) && e@ == why@,
            SttLookup::Found(q) => r == Ok::<Option<Q>, String>(Some(q)),
        },
{
    match lookup {
        SttLookup::Unknown => Ok(None),
        SttLookup::BadQuantization => {
            let shown = quoted(quantization);
            Err(say_bad_quantization(&shown))
        },
        SttLookup::Refused(why) => Err(why),
        SttLookup::Found(q) => Ok(Some(q)),
    }
}

/// What is said of a quantization that is none, given how it is quoted.
pub fn say_bad_quantization(shown: &str) -> (r: String)
    ensures
        r@ == bad_quantization(shown@),
{
    let mut s = own("invalid `[stt.local].quantization = ");
    s.append(shown);
    s.append("` — expected `auto`, `fp16`, `q5_1`, or `q8_0`");
    s
}

/// What to do about a model.
#[derive(Debug, Clone, Copy, PartialEq, Eq, Structural)]
pub enum EnsureStep {
    /// Nothing: it came to this.
    Done(EnsureOutcome),
    /// Download it.
    Download,
}

/// What to do about a model: nothing where it is unknown or on disk.
pub fn ensure_step(known: bool, on_disk: bool) -> (r: EnsureStep)
    ensures
        r == (if !known {
            EnsureStep::Done(EnsureOutcome::Unknown)
        } else if on_disk {
            EnsureStep::Done(EnsureOutcome::AlreadyPresent)
        } else {
            EnsureStep::Download
        }),
{
    if !known {
        EnsureStep::Done(EnsureOutcome::Unknown)
    } else if on_disk {
        EnsureStep::Done(EnsureOutcome::AlreadyPresent)
    } else {
        EnsureStep::Download
    }
}

/// One kind of model a configuration may reference.
#[derive(Debug, Clone, Copy, PartialEq, Eq, Structural)]
pub enum Part {
    Speech,
    Cleanup,
    Assistant,
    Voice,
}

/// What a configuration runs locally.
#[derive(Debug, Clone, Copy)]
pub struct LocalParts {
    pub stt_local: bool,
    pub polish_local: bool,
    pub assistant_enabled: bool,
    pub assistant_local: bool,
    pub tts_local: bool,
}

/// A part, where it is run locally.
pub open spec fn part_if(runs: bool, p: Part) -> Seq<Part> {
    if runs {
        seq![p]
    } else {
        Seq::empty()
    }
}

/// The parts to make sure of, in order.
pub open spec fn parts_of(c: LocalParts) -> Seq<Part> {
    part_if(c.stt_local, Part::Speech) + part_if(c.polish_local, Part::Cleanup) + part_if(
        c.assistant_enabled && c.assistant_local,
        Part::Assistant,
    ) + part_if(c.tts_local, Part::Voice)
}

/// The parts to make sure of, in order. A failure of one keeps none of the
/// others from being tried: a transient one must never keep the daemon from
/// coming up.
pub fn ensure_models(c: &LocalParts) -> (r: Vec<Part>)
    ensures
        r@ == parts_of(*c),
{
    let mut out: Vec<Part> = Vec::new();
    if c.stt_local {
        out.push(Part::Speech);
    }
    if c.polish_local {
        out.push(Part::Cleanup);
    }
    if c.assistant_enabled && c.assistant_local {
        out.push(Part::Assistant);
    }
    if c.tts_local {
        out.push(Part::Voice);
    }
    assert(out@ =~= parts_of(*c));
    out
}

// ---------------------------------------------------------------------------
// Voices
// ---------------------------------------------------------------------------

/// A voice of the catalog.
#[derive(Debug, Clone)]
pub struct Voice {
    pub name: String,
    pub engine: String,
    /// The size of its model, in bytes.
    pub model_size: u64,
    /// The size of its configuration, where it has one.
    pub config_size: Option<u64>,
    /// The size of its style, where it has one.
    pub style_size: Option<u64>,
}

/// What a [`Voice`] says.
#[verifier::ext_equal]
pub struct VoiceV {
    pub name: Seq<char>,
    pub engine: Seq<char>,
    pub model_size: u64,
    pub config_size: Option<u64>,
    pub style_size: Option<u64>,
}

impl View for Voice {
    type V = VoiceV;

    open spec fn view(&self) -> VoiceV {
        VoiceV {
            name: self.name@,
            engine: self.engine@,
            model_size: self.model_size,
            config_size: self.config_size,
            style_size: self.style_size,
        }
    }
}

impl Voice {
    /// A voice of its own that says the same.
    pub fn copy(&self) -> (r: Voice)
        ensures
            r@ == self@,
    {
        Voice {
            name: self.name.clone(),
            engine: self.engine.clone(),
            model_size: self.model_size,
            config_size: self.config_size,
            style_size: self.style_size,
        }
    }
}

/// An optional voice, by what it says.
pub open spec fn opt_voice(v: Option<Voice>) -> Option<VoiceV> {
    match v {
        Some(x) => Some(x@),
        None => None,
    }
}

/// Optional voices, by what they say.
pub open spec fn opt_voices(v: Seq<Option<Voice>>) -> Seq<Option<VoiceV>> {
    v.map_values(|x: Option<Voice>| opt_voice(x))
}

/// What an explicit voice comes to.
pub enum PinnedV {
    /// That voice and no other.
    One(VoiceV),
    /// Nothing: the languages decide.
    Open,
    /// An error.
    Unknown,
}

/// What an explicit voice comes to, given what the catalog holds under its name.
/// A voice of another engine than the pinned one is ignored, so that the engine
/// selection wins; and so is an unknown voice while an engine is pinned.
pub open spec fn pinned(
    voice: Seq<char>,
    engine: Option<Seq<char>>,
    by_name: Option<VoiceV>,
) -> PinnedV {
    if voice.len() == 0 {
        PinnedV::Open
    } else {
        match by_name {
            Some(v) => if engine is None || engine == Some(v.engine) {
                PinnedV::One(v)
            } else {
                PinnedV::Open
            },
            None => if engine is None {
                PinnedV::Unknown
            } else {
                PinnedV::Open
            },
        }
    }
}

/// Whether a voice is among those chosen, by its name.
pub open spec fn is_chosen(chosen: Seq<VoiceV>, name: Seq<char>) -> bool {
    exists|i: int| 0 <= i < chosen.len() && (#[trigger] chosen[i]).name == name
}

/// One voice per language, in order and none twice; a language without one is
/// passed over.
pub open spec fn one_each(found: Seq<Option<VoiceV>>) -> Seq<VoiceV>
    decreases found.len(),
{
    if found.len() == 0 {
        Seq::empty()
    } else {
        let rest = one_each(found.drop_last());
        match found.last() {
            Some(v) => if is_chosen(rest, v.name) {
                rest
            } else {
                rest.push(v)
            },
            None => rest,
        }
    }
}

/// The languages to find voices for: English where none is configured.
pub open spec fn languages_or_english(languages: Seq<Seq<char>>) -> Seq<Seq<char>> {
    if languages.len() == 0 {
        seq!["en"@]
    } else {
        languages
    }
}

/// What is said of a voice the catalog does not hold.
pub open spec fn unknown_voice(shown: Seq<char>) -> Seq<char> {
    "[tts.local].voice = "@ + shown + " is not in the voice catalog"@
}

/// What is said when no language has a voice.
pub open spec fn no_voice(shown: Seq<char>) -> Seq<char> {
    "no local voice in the catalog for any configured language (e.g. "@ + shown
        + "); set [tts.local].voice to a catalog voice id"@
}

/// The language a complaint names.
pub open spec fn example_language(languages: Seq<Seq<char>>) -> Seq<char> {
    languages_or_english(languages)[0]
}

/// The voices needed, given what the catalog answers: under the explicit name,
/// for each language, and first of the pinned engine.
pub open spec fn voices_needed(
    voice: Seq<char>,
    engine: Option<Seq<char>>,
    languages: Seq<Seq<char>>,
    by_name: Option<VoiceV>,
    by_language: Seq<Option<VoiceV>>,
    first_of_engine: Option<VoiceV>,
) -> Result<Seq<VoiceV>, Seq<char>> {
    match pinned(voice, engine, by_name) {
        PinnedV::One(v) => Ok(seq![v]),
        PinnedV::Unknown => Err(unknown_voice(debug_text(voice))),
        PinnedV::Open => {
            let chosen = one_each(by_language);
            if chosen.len() > 0 {
                Ok(chosen)
            } else if engine is Some && first_of_engine is Some {
                Ok(seq![first_of_engine->Some_0])
            } else {
                Err(no_voice(debug_text(example_language(languages))))
            }
        },
    }
}

/// What voices or a complaint say.
pub open spec fn voices_result(r: Result<Vec<Voice>, String>) -> Result<Seq<VoiceV>, Seq<char>> {
    match r {
        Ok(v) => Ok(order::views(v@)),
        Err(e) => Err(e@),
    }
}

/// What an explicit voice comes to.
#[derive(Debug, Clone)]
pub enum Pinned {
    One(Voice),
    Open,
    Unknown,
}

impl View for Pinned {
    type V = PinnedV;

    open spec fn view(&self) -> PinnedV {
        match self {
            Pinned::One(v) => PinnedV::One(v@),
            Pinned::Open => PinnedV::Open,
            Pinned::Unknown => PinnedV::Unknown,
        }
    }
}

/// What an explicit voice comes to.
pub fn pin(voice: &str, engine: &Option<String>, by_name: &Option<Voice>) -> (r: Pinned)
    ensures
        r@ == pinned(voice@, text::opt_text(*engine), opt_voice(*by_name)),
{
    if voice.is_empty() {
        return Pinned::Open;
    }
    match (by_name, engine) {
        (Some(v), Some(e)) => if same(e, &v.engine) {
            Pinned::One(v.copy())
        } else {
            Pinned::Open
        },
        (Some(v), None) => Pinned::One(v.copy()),
        (None, Some(_)) => Pinned::Open,
        (None, None) => Pinned::Unknown,
    }
}

fn has_voice(chosen: &Vec<Voice>, name: &str) -> (r: bool)
    ensures
        r == is_chosen(order::views(chosen@), name@),
{
    let ghost all = order::views(chosen@);
    for i in 0..chosen.len()
        invariant
            all == order::views(chosen@),
            forall|k: int| 0 <= k < i ==> (#[trigger] all[k]).name != name@,
    {
        assert(all[i as int] == chosen@[i as int]@);
        if same(&chosen[i].name, name) {
            assert(all[i as int].name == name@);
            return true;
        }
    }
    false
}

/// One voice per language, in order and none twice.
pub fn choose_voices(found: &Vec<Option<Voice>>) -> (r: Vec<Voice>)
    ensures
        order::views(r@) == one_each(opt_voices(found@)),
{
    let ghost all = opt_voices(found@);
    let mut out: Vec<Voice> = Vec::new();
    assert(order::views(out@) =~= one_each(all.take(0)));
    for i in 0..found.len()
        invariant
            all == opt_voices(found@),
            order::views(out@) == one_each(all.take(i as int)),
    {
        let ghost before = order::views(out@);
        proof {
            assert(all.take(i + 1).drop_last() == all.take(i as int));
            assert(all[i as int] == opt_voice(found@[i as int]));
        }
        if let Some(v) = &found[i] {
            if !has_voice(&out, &v.name) {
                let one = v.copy();
                let ghost said = one@;
                out.push(one);
                assert(order::views(out@) =~= before.push(said));
            }
        }
    }
    assert(all.take(all.len() as int) == all);
    out
}

fn say_no_voice(shown: &str) -> (r: String)
    ensures
        r@ == no_voice(shown@),
{
    let mut s = own("no local voice in the catalog for any configured language (e.g. ");
    s.append(shown);
    s.append("); set [tts.local].voice to a catalog voice id");
    s
}

fn say_unknown_voice(shown: &str) -> (r: String)
    ensures
        r@ == unknown_voice(shown@),
{
    let mut s = own("[tts.local].voice = ");
    s.append(shown);
    s.append(" is not in the voice catalog");
    s
}

fn just(v: Voice) -> (r: Vec<Voice>)
    ensures
        order::views(r@) == seq![v@],
{
    let ghost said = v@;
    let mut out: Vec<Voice> = Vec::new();
    out.push(v);
    assert(order::views(out@) =~= seq![said]);
    out
}

/// The voices the local backend needs: an explicit voice pins one, otherwise one
/// per configured language is chosen, so that the language router can switch
/// voices offline. Languages without a voice are passed over; where none has
/// one, the first voice of the pinned engine will do.
pub fn resolve_local_tts_voices(
    voice: &str,
    engine: &Option<String>,
    languages: &Vec<String>,
    by_name: &Option<Voice>,
    by_language: &Vec<Option<Voice>>,
    first_of_engine: &Option<Voice>,
) -> (r: Result<Vec<Voice>, String>)
    ensures
        voices_result(r) == voices_needed(
            voice@,
            text::opt_text(*engine),
            text::texts(languages@),
            opt_voice(*by_name),
            opt_voices(by_language@),
            opt_voice(*first_of_engine),
        ),
{
    match pin(voice, engine, by_name) {
        Pinned::One(v) => {
            return Ok(just(v));
        },
        Pinned::Unknown => {
            let shown = quoted(voice);
            return Err(say_unknown_voice(&shown));
        },
        Pinned::Open => {},
    }
    let chosen = choose_voices(by_language);
    assert(order::views(chosen@).len() == chosen@.len());
    if chosen.len() > 0 {
        return Ok(chosen);
    }
    if engine.is_some() {
        if let Some(v) = first_of_engine {
            return Ok(just(v.copy()));
        }
    }
    assert(text::texts(languages@).len() == languages@.len());
    let shown = if languages.len() == 0 {
        quoted("en")
    } else {
        assert(text::texts(languages@)[0] == languages@[0]@);
        quoted(&languages[0])
    };
    Err(say_no_voice(&shown))
}

/// The languages to find voices for.
pub fn voice_languages(languages: &Vec<String>) -> (r: Vec<String>)
    ensures
        text::texts(r@) == languages_or_english(text::texts(languages@)),
{
    assert(text::texts(languages@).len() == languages@.len());
    if languages.len() == 0 {
        let mut out: Vec<String> = Vec::new();
        out.push(own("en"));
        assert(text::texts(out@) =~= seq!["en"@]);
        out
    } else {
        copy_texts(languages)
    }
}

/// Which files of a voice are on disk.
#[derive(Debug, Clone, Copy)]
pub struct VoiceFiles {
    pub model: bool,
    /// Its configuration, where it has one.
    pub config: Option<bool>,
    /// Its style, where it has one.
    pub style: Option<bool>,
}

/// Whether a voice is on disk: every file it has is.
pub open spec fn is_cached(f: VoiceFiles) -> bool {
    f.model && f.config != Some(false) && f.style != Some(false)
}

/// Whether a voice is on disk.
pub fn voice_present(f: &VoiceFiles) -> (r: bool)
    ensures
        r == is_cached(*f),
{
    let config = match f.config {
        Some(b) => b,
        None => true,
    };
    let style = match f.style {
        Some(b) => b,
        None => true,
    };
    f.model && config && style
}

/// Whether every voice is on disk.
pub open spec fn all_cached(files: Seq<VoiceFiles>) -> bool {
    forall|i: int| 0 <= i < files.len() ==> is_cached(#[trigger] files[i])
}

/// What making sure of the voices came to, given which were on disk before: once
/// it has succeeded, something was downloaded exactly where one was not.
pub fn ensure_local_tts_route(files: &Vec<VoiceFiles>) -> (r: EnsureOutcome)
    ensures
        r == (if all_cached(files@) {
            EnsureOutcome::AlreadyPresent
        } else {
            EnsureOutcome::Downloaded
        }),
{
    for i in 0..files.len()
        invariant
            forall|k: int| 0 <= k < i ==> is_cached(#[trigger] files@[k]),
    {
        if !voice_present(&files[i]) {
            assert(!is_cached(files@[i as int]));
            return EnsureOutcome::Downloaded;
        }
    }
    EnsureOutcome::AlreadyPresent
}

/// What an optional file weighs.
pub open spec fn size_or_zero(n: Option<u64>) -> nat {
    match n {
        Some(x) => x as nat,
        None => 0,
    }
}

/// What a voice weighs.
pub open spec fn voice_size(v: VoiceV) -> nat {
    v.model_size as nat + size_or_zero(v.config_size) + size_or_zero(v.style_size)
}

/// What the voices that are not on disk weigh together.
pub open spec fn missing_size(voices: Seq<VoiceV>, files: Seq<VoiceFiles>) -> nat
    decreases voices.len(),
{
    if voices.len() == 0 || files.len() == 0 {
        0
    } else {
        missing_size(voices.drop_last(), files.drop_last()) + (if is_cached(files.last()) {
            0
        } else {
            voice_size(voices.last())
        })
    }
}

/// A weight in megabytes, at least one, or nothing where there is none.
pub open spec fn megabytes(bytes: nat) -> Option<u32> {
    if bytes == 0 {
        None
    } else {
        let mb = bytes / 1_000_000;
        Some(
            (if mb < 1 {
                1
            } else {
                mb
            }) as u32,
        )
    }
}

fn zero_or(n: Option<u64>) -> (r: u64)
    ensures
        r == size_or_zero(n),
{
    match n {
        Some(x) => x,
        None => 0,
    }
}

proof fn lemma_missing_grows(voices: Seq<VoiceV>, files: Seq<VoiceFiles>, i: int)
    requires
        voices.len() == files.len(),
        0 <= i <= voices.len(),
    ensures
        missing_size(voices.take(i), files.take(i)) <= missing_size(voices, files),
    decreases voices.len() - i,
{
    if i < voices.len() {
        assert(voices.take(i + 1).drop_last() == voices.take(i));
        assert(files.take(i + 1).drop_last() == files.take(i));
        lemma_missing_grows(voices, files, i + 1);
    } else {
        assert(voices.take(i) == voices);
        assert(files.take(i) == files);
    }
}

/// Approximate download size, in MB, of the voices that are not yet on disk, or
/// `None` when every one is.
pub fn local_tts_pending_mb(voices: &Vec<Voice>, files: &Vec<VoiceFiles>) -> (r: Option<u32>)
    requires
        voices@.len() == files@.len(),
        missing_size(order::views(voices@), files@) <= u64::MAX,
    ensures
        r == megabytes(missing_size(order::views(voices@), files@)),
{
    let ghost all = order::views(voices@);
    let mut pending: u64 = 0;
    for i in 0..voices.len()
        invariant
            all == order::views(voices@),
            voices@.len() == files@.len(),
            missing_size(all, files@) <= u64::MAX,
            pending == missing_size(all.take(i as int), files@.take(i as int)),
    {
        proof {
            assert(all.take(i + 1).drop_last() == all.take(i as int));
            assert(files@.take(i + 1).drop_last() == files@.take(i as int));
            assert(all[i as int] == voices@[i as int]@);
            lemma_missing_grows(all, files@, i + 1);
        }
        if !voice_present(&files[i]) {
            let v = &voices[i];
            let config = zero_or(v.config_size);
            let style = zero_or(v.style_size);
            pending = pending + v.model_size + config + style;
        }
    }
    assert(all.take(all.len() as int) == all);
    assert(files@.take(files@.len() as int) == files@);
    if pending == 0 {
        None
    } else {
        let mb: u64 = pending / 1_000_000;
        Some(
            if mb < 1 {
                1
            } else {
                mb as u32
            },
        )
    }
}

/// What the shared voice pack weighs, in MB.
pub const PACK_MB: u32 = 140;

/// Approximate download size of the shared voice pack, where it is not on disk.
pub fn pack_pending_mb(present: bool) -> (r: Option<u32>)
    ensures
        r == (if present {
            None
        } else {
            Some(PACK_MB)
        }),
{
    if present {
        None
    } else {
        Some(PACK_MB)
    }
}

// ---------------------------------------------------------------------------
// Laws
// ---------------------------------------------------------------------------

/// A download that never started is always announced: a silent run is then
/// exactly what looks like a hang.
pub proof fn law_a_stalled_download_is_announced(
    body: Seq<char>,
    total_mb: u32,
    elapsed_nanos: u64,
    sampled: Option<(u64, Rate)>,
)
    requires
        sampled matches Some(m) ==> is_stalled(m.1),
    ensures
        notice_words(body, total_mb, elapsed_nanos, sampled) == Some(body),
{
}

/// Past the threshold, a download is always announced.
pub proof fn law_a_long_download_is_announced(left: Option<Remaining>, elapsed_nanos: u64)
    requires
        elapsed_nanos >= NOTIFY_THRESHOLD_NANOS,
    ensures
        is_worth_saying(left, elapsed_nanos),
{
    if let Some(t) = left {
        assert(elapsed_nanos * t.parts >= NOTIFY_THRESHOLD_NANOS * t.parts) by (nonlinear_arith)
            requires
                elapsed_nanos >= NOTIFY_THRESHOLD_NANOS,
                t.parts >= 0,
        ;
    }
}

/// A slower transfer is never announced less: with the same bytes in, a rate
/// measured over a longer time keeps an announcement.
pub proof fn law_slower_is_no_quieter(
    total_mb: u32,
    done: u64,
    bytes: u64,
    nanos: u64,
    longer: u64,
    elapsed_nanos: u64,
)
    requires
        nanos <= longer,
        is_worth_saying(time_left(total_mb, done, Rate { bytes, nanos }), elapsed_nanos),
    ensures
        is_worth_saying(time_left(total_mb, done, Rate { bytes, nanos: longer }), elapsed_nanos),
{
    let slow = Rate { bytes, nanos: longer };
    if !is_stalled(slow) {
        let left = bytes_left(total_mb, done) as int;
        assert(left <= u32::MAX * 1_000_000);
        assert(0 <= left * nanos <= left * longer <= u128::MAX) by (nonlinear_arith)
            requires
                0 <= left <= 0xFFFF_FFFF * 1_000_000,
                0 <= nanos <= longer <= u64::MAX,
        ;
    }
}

/// Connection setup is not averaged into the rate: what was in before the first
/// byte was seen, and how long that took, make no difference to it.
pub proof fn law_setup_is_not_averaged_in(
    start: u64,
    earlier: u64,
    anchor: u64,
    now: u64,
    window_nanos: u64,
)
    ensures
        measured(start, anchor, now, window_nanos).1 == measured(
            earlier,
            anchor,
            now,
            window_nanos,
        ).1,
{
}

/// A "ready" is only ever owed where the user was told of the download, and it
/// is claimed once: a second claim without another download comes to nothing.
pub proof fn law_ready_follows_an_announcement(n: DownloadNotices, told: bool)
    requires
        !n.announced,
    ensures
        ({
            let verdict = once_decided(once_started(n), told);
            &&& claim_of(verdict) == Claim::Ready
            &&& once_claimed(verdict).announced == told
            &&& claim_of(once_settled(once_claimed(verdict))) == Claim::NotOwed
            &&& !once_settled(once_claimed(verdict)).announced
        }),
{
}

/// Without a download there is nothing to claim, whatever was said before.
pub proof fn law_no_download_no_ready(n: DownloadNotices)
    requires
        !n.pending,
    ensures
        claim_of(n) == Claim::NotOwed,
        once_claimed(n) == n,
{
}

/// With everything on disk there is nothing to announce.
pub proof fn law_a_cached_start_is_silent(
    stt: Option<SttModel>,
    polish: Option<LlmModel>,
    assistant: Option<LlmModel>,
)
    requires
        stt matches Some(m) ==> !m.missing,
        polish matches Some(m) ==> m.present,
        assistant matches Some(m) ==> m.present,
    ensures
        all_pending(stt, polish, assistant, None).len() == 0,
{
}

/// A model that two roles share is listed once.
pub proof fn law_a_shared_model_is_listed_once(
    stt: Option<SttModel>,
    polish: LlmModel,
    assistant: LlmModel,
    tts_mb: Option<u32>,
)
    requires
        polish.stem@ == assistant.stem@,
        !polish.present,
    ensures
        all_pending(stt, Some(polish), Some(assistant), tts_mb) == all_pending(
            stt,
            Some(polish),
            None,
            tts_mb,
        ),
{
}

/// No voice is chosen twice.
pub proof fn law_no_voice_is_chosen_twice(found: Seq<Option<VoiceV>>, i: int, j: int)
    requires
        0 <= i < j < one_each(found).len(),
    ensures
        one_each(found)[i].name != one_each(found)[j].name,
    decreases found.len(),
{
    let rest = one_each(found.drop_last());
    if j < rest.len() {
        law_no_voice_is_chosen_twice(found.drop_last(), i, j);
    } else {
        assert(one_each(found)[i] == rest[i]);
        assert(one_each(found)[j] == found.last()->Some_0);
    }
}

/// Every language that has a voice gets one of that name.
pub proof fn law_every_language_is_served(found: Seq<Option<VoiceV>>, i: int)
    requires
        0 <= i < found.len(),
        found[i] is Some,
    ensures
        is_chosen(one_each(found), found[i]->Some_0.name),
    decreases found.len(),
{
    let rest = one_each(found.drop_last());
    let all = one_each(found);
    let name = found[i]->Some_0.name;
    if i < found.len() - 1 {
        law_every_language_is_served(found.drop_last(), i);
    }
    if is_chosen(rest, name) {
        let k = choose|k: int| 0 <= k < rest.len() && (#[trigger] rest[k]).name == name;
        assert(all[k] == rest[k]);
        assert(all[k].name == name);
    } else {
        assert(all[all.len() - 1].name == name);
    }
}

/// The engine wins: while one is pinned, an explicit voice is taken only where
/// it belongs to it.
pub proof fn law_the_engine_wins(voice: Seq<char>, engine: Seq<char>, by_name: Option<VoiceV>)
    ensures
        pinned(voice, Some(engine), by_name) matches PinnedV::One(v) ==> v.engine == engine,
        !(pinned(voice, Some(engine), by_name) is Unknown),
{
}

/// A download stalls below a thousand bytes in a second, and nothing is then
/// projected; otherwise what is left takes as long as it would at the rate.
pub proof fn law_what_is_left_takes_its_time(total_mb: u32, done: u64, rate: Rate)
    ensures
        is_stalled(rate) <==> rate.bytes * 1_000_000 < rate.nanos,
        time_left(total_mb, done, rate) is None <==> is_stalled(rate),
        bytes_left(total_mb, done) == (if total_mb * 1_000_000 < done {
            0
        } else {
            total_mb * 1_000_000 - done
        }),
        time_left(total_mb, done, rate) matches Some(t) ==> t.parts == rate.bytes && t.nanos
            == bytes_left(total_mb, done) * rate.nanos,
{
    let left = bytes_left(total_mb, done) as int;
    let n = rate.nanos as int;
    assert(0 <= left <= 4_294_967_295_000_000);
    assert(0 <= left * n <= 4_294_967_295_000_000 * 18_446_744_073_709_551_615) by (nonlinear_arith)
        requires
            0 <= left <= 4_294_967_295_000_000,
            0 <= n <= 18_446_744_073_709_551_615,
    ;
}

/// A download is worth announcing unless it is sure to be over within fifteen
/// seconds of its start, what has passed included; where nothing can be projected
/// it is announced.
pub proof fn law_what_is_worth_announcing(elapsed_nanos: u64, left: Remaining)
    ensures
        is_worth_saying(None, elapsed_nanos),
        is_worth_saying(Some(left), elapsed_nanos) <==> elapsed_nanos * left.parts + left.nanos
            >= 15_000_000_000 * left.parts,
{
}

/// What was measured: what has come since the start, and how much came in the
/// window, which is taken to be a millisecond long at least. A count that went
/// back is taken for none.
pub proof fn law_what_was_measured(start: u64, anchor: u64, now: u64, window_nanos: u64)
    ensures
        ({
            let (done, rate) = measured(start, anchor, now, window_nanos);
            &&& start <= now ==> done == now - start
            &&& now < start ==> done == 0
            &&& anchor <= now ==> rate.bytes == now - anchor
            &&& now < anchor ==> rate.bytes == 0
            &&& window_nanos >= 1_000_000 ==> rate.nanos == window_nanos
            &&& window_nanos < 1_000_000 ==> rate.nanos == 1_000_000
        }),
{
}

/// A quotient is rounded to the nearest whole number and, half way, to the even
/// one.
pub proof fn law_a_quotient_is_rounded_to_even(a: int, b: int)
    requires
        0 <= a,
        0 < b,
    ensures
        2 * a - b <= 2 * (nearest(a, b) * b) <= 2 * a + b,
        2 * (nearest(a, b) * b) == 2 * a + b || 2 * (nearest(a, b) * b) == 2 * a - b ==> nearest(
            a,
            b,
        ) % 2 == 0,
        nearest(a, b) >= 0,
{
    let q = a / b;
    vstd::arithmetic::div_mod::lemma_fundamental_div_mod(a, b);
    vstd::arithmetic::div_mod::lemma_mod_bound(a, b);
    vstd::arithmetic::div_mod::lemma_div_pos_is_pos(a, b);
    assert(b * q == q * b) by (nonlinear_arith);
    assert((q + 1) * b == q * b + b) by (nonlinear_arith);
}

/// A rate is told in megabytes in a second, with one digit behind the point.
pub proof fn law_a_rate_is_told_in_tenths(r: Rate)
    requires
        r.nanos > 0,
    ensures
        tenths(r) == nearest(r.bytes * 10_000, r.nanos as int),
        rate_words(r) == "("@ + text::decimal(tenths(r) / 10) + "."@ + text::decimal(
            tenths(r) % 10,
        ) + " MB/s)"@,
{
    law_a_quotient_is_rounded_to_even(r.bytes * 10_000, r.nanos as int);
}

/// Minutes are told rounded up: no more is left than is said, and more than a
/// minute less.
pub proof fn law_minutes_are_rounded_up(t: Remaining)
    requires
        t.parts > 0,
        t.nanos <= 1_000_000_000_000_000_000_000_000_000,
    ensures
        t.nanos <= minutes_left(t) * (60_000_000_000 * t.parts),
        minutes_left(t) > 0 ==> (minutes_left(t) - 1) * (60_000_000_000 * t.parts) < t.nanos,
        t.nanos > 0 ==> minutes_left(t) > 0,
{
    let w = MINUTE_NANOS * t.parts;
    let a = t.nanos + w - 1;
    let n = a / w;
    assert(w >= 60_000_000_000);
    vstd::arithmetic::div_mod::lemma_fundamental_div_mod(a, w);
    vstd::arithmetic::div_mod::lemma_mod_bound(a, w);
    assert(w * n == n * w) by (nonlinear_arith);
    assert((n - 1) * w == n * w - w) by (nonlinear_arith);
    assert(n <= u64::MAX) by (nonlinear_arith)
        requires
            n * w <= a,
            a <= 1_000_000_000_000_000_000_000_000_000 + w,
            w >= 60_000_000_000,
    ;
    if t.nanos > 0 {
        assert(n >= 1) by (nonlinear_arith)
            requires
                n * w > a - w,
                a >= w,
                w > 0,
        ;
    }
    assert(n >= 0) by (nonlinear_arith)
        requires
            n * w > a - w,
            a >= w - 1,
            w > 0,
    ;
}

/// What is left is told in minutes from one minute on, and as less than one below
/// it; the rate stands behind it.
pub proof fn law_what_is_left_is_told(t: Remaining, r: Rate)
    ensures
        t.nanos < 60_000_000_000 * t.parts ==> eta_words(t, r) == "less than a minute left "@
            + rate_words(r),
        t.nanos >= 60_000_000_000 * t.parts ==> eta_words(t, r) == "about "@ + text::decimal(
            minutes_left(t),
        ) + " min left "@ + rate_words(r),
{
}

/// An announcement says what is downloaded and, where it can be told, how long it
/// will take; a download that is soon over is not announced.
pub proof fn law_what_an_announcement_says(
    body: Seq<char>,
    total_mb: u32,
    elapsed_nanos: u64,
    done: u64,
    rate: Rate,
)
    ensures
        ({
            let said = notice_words(body, total_mb, elapsed_nanos, Some((done, rate)));
            match time_left(total_mb, done, rate) {
                None => said == Some(body),
                Some(t) => said == (if is_worth_saying(Some(t), elapsed_nanos) {
                    Some(body + " — "@ + eta_words(t, rate))
                } else {
                    None
                }),
            }
        }),
        notice_words(body, total_mb, elapsed_nanos, None) == Some(body),
{
}

/// Each step changes its own mark and leaves the others: a start makes a verdict
/// due, a verdict settles it and is never taken back by a later one, a claim
/// takes what was due, and settling clears what was decided.
pub proof fn law_each_step_changes_its_own_mark(n: DownloadNotices, told: bool)
    ensures
        once_started(n).pending && once_started(n).decided == n.decided && once_started(n).announced
            == n.announced,
        once_decided(n, told).decided && once_decided(n, told).pending == n.pending && once_decided(
            n,
            told,
        ).announced == (n.announced || told),
        !once_claimed(n).pending && once_claimed(n).decided == n.decided && once_claimed(
            n,
        ).announced == n.announced,
        !once_settled(n).decided && !once_settled(n).announced && once_settled(n).pending
            == n.pending,
        claim_of(n) == Claim::NotOwed <==> !n.pending,
        claim_of(n) == Claim::Ready <==> n.pending && n.decided,
        claim_of(n) == Claim::Wait <==> n.pending && !n.decided,
{
}

/// What is still to be downloaded: the speech model where it is missing, each
/// language model where it is not there, and the voice where one is, each with
/// its size and in that order.
pub proof fn law_what_is_still_to_come(
    stt: SttModel,
    polish: LlmModel,
    assistant: LlmModel,
    mb: u32,
)
    requires
        polish.stem@ != assistant.stem@ || polish.present,
    ensures
        ({
            let size = |o: Option<u32>|
                match o {
                    Some(n) => n,
                    None => 0u32,
                };
            let a = if stt.missing {
                seq![("speech model "@ + stt.name@, size(stt.mb))]
            } else {
                Seq::empty()
            };
            let b = if !polish.present {
                seq![("cleanup model"@ + " "@ + polish.name@, size(polish.mb))]
            } else {
                Seq::empty()
            };
            let c = if !assistant.present {
                seq![("assistant model"@ + " "@ + assistant.name@, size(assistant.mb))]
            } else {
                Seq::empty()
            };
            all_pending(Some(stt), Some(polish), Some(assistant), Some(mb)) == a + b + c + seq![
                ("text-to-speech voice"@, mb),
            ]
        }),
        all_pending(None, None, None, None).len() == 0,
{
}

/// The size of what is to come is the sum of its parts; one model is announced as
/// one, several by their number, and the size is told where there is any.
pub proof fn law_the_whole_is_the_sum(pending: Seq<(Seq<char>, u32)>, p: (Seq<char>, u32), n: nat)
    ensures
        total_size(Seq::empty()) == 0,
        total_size(pending.push(p)) == total_size(pending) + p.1,
        title_words(1) == "Fono — downloading a model"@,
        n != 1 ==> title_words(n) == "Fono — downloading "@ + text::decimal(n) + " models"@,
        ({
            let what = text::joined(pending.map_values(|p: (Seq<char>, u32)| p.0), ", "@);
            &&& total_size(pending) == 0 ==> body_words(pending) == what
            &&& total_size(pending) > 0 ==> body_words(pending) == what + " ("@ + text::decimal(
                total_size(pending),
            ) + " MB)"@
        }),
{
    assert(pending.push(p).drop_last() == pending);
}

/// The parts that run locally, each exactly where it does, in their order; the
/// assistant also has to be switched on.
pub proof fn law_the_parts_that_run_here(c: LocalParts)
    ensures
        parts_of(c).contains(Part::Speech) <==> c.stt_local,
        parts_of(c).contains(Part::Cleanup) <==> c.polish_local,
        parts_of(c).contains(Part::Assistant) <==> c.assistant_enabled && c.assistant_local,
        parts_of(c).contains(Part::Voice) <==> c.tts_local,
        c.stt_local && c.polish_local && c.assistant_enabled && c.assistant_local && c.tts_local
            ==> parts_of(c) == seq![Part::Speech, Part::Cleanup, Part::Assistant, Part::Voice],
{
    let a = part_if(c.stt_local, Part::Speech);
    let b = part_if(c.polish_local, Part::Cleanup);
    let d = part_if(c.assistant_enabled && c.assistant_local, Part::Assistant);
    let e = part_if(c.tts_local, Part::Voice);
    let all = parts_of(c);
    assert(all == a + b + d + e);
    if c.stt_local {
        assert(all[0] == Part::Speech);
    }
    if c.polish_local {
        assert(all[a.len() as int] == Part::Cleanup);
    }
    if c.assistant_enabled && c.assistant_local {
        assert(all[(a.len() + b.len()) as int] == Part::Assistant);
    }
    if c.tts_local {
        assert(all[(a.len() + b.len() + d.len()) as int] == Part::Voice);
    }
}

/// A voice that is named and known is the one, unless another engine was asked
/// for; one that is named and not known is an error, unless an engine was asked
/// for; and otherwise the languages decide.
pub proof fn law_what_a_named_voice_settles(
    voice: Seq<char>,
    engine: Seq<char>,
    v: VoiceV,
    by_name: Option<VoiceV>,
)
    ensures
        pinned(Seq::empty(), Some(engine), by_name) is Open,
        pinned(Seq::empty(), None, by_name) is Open,
        voice.len() > 0 ==> pinned(voice, None, Some(v)) == PinnedV::One(v),
        voice.len() > 0 && v.engine == engine ==> pinned(voice, Some(engine), Some(v))
            == PinnedV::One(v),
        voice.len() > 0 && v.engine != engine ==> pinned(voice, Some(engine), Some(v)) is Open,
        voice.len() > 0 ==> pinned(voice, None, None) is Unknown,
        voice.len() > 0 ==> pinned(voice, Some(engine), None) is Open,
{
}

/// The voices that are needed: the named one alone, where it is settled; else one
/// for each language that has one; else, where an engine was asked for, its
/// first; and otherwise none, which is an error.
pub proof fn law_which_voices_are_needed(
    voice: Seq<char>,
    engine: Option<Seq<char>>,
    languages: Seq<Seq<char>>,
    by_name: Option<VoiceV>,
    by_language: Seq<Option<VoiceV>>,
    first_of_engine: Option<VoiceV>,
    v: VoiceV,
)
    ensures
        ({
            let r = voices_needed(
                voice,
                engine,
                languages,
                by_name,
                by_language,
                first_of_engine,
            );
            let pin = pinned(voice, engine, by_name);
            let chosen = one_each(by_language);
            &&& pin == PinnedV::One(v) ==> r == Ok::<Seq<VoiceV>, Seq<char>>(seq![v])
            &&& pin is Unknown ==> r is Err
            &&& pin is Open && chosen.len() > 0 ==> r == Ok::<Seq<VoiceV>, Seq<char>>(chosen)
            &&& pin is Open && chosen.len() == 0 && engine is Some && first_of_engine == Some(v)
                ==> r == Ok::<Seq<VoiceV>, Seq<char>>(seq![v])
            &&& pin is Open && chosen.len() == 0 && (engine is None || first_of_engine is None)
                ==> r is Err
        }),
{
}

/// Voices are chosen in the order of the languages: each that is found and whose
/// name was not chosen before is added at the end, and nothing else is.
pub proof fn law_voices_are_chosen_in_order(found: Seq<Option<VoiceV>>, v: VoiceV)
    ensures
        one_each(Seq::empty()).len() == 0,
        one_each(found.push(None)) == one_each(found),
        (exists|i: int| 0 <= i < one_each(found).len() && (#[trigger] one_each(found)[i]).name
            == v.name) ==> one_each(found.push(Some(v))) == one_each(found),
        (forall|i: int| 0 <= i < one_each(found).len() ==> (#[trigger] one_each(found)[i]).name
            != v.name) ==> one_each(found.push(Some(v))) == one_each(found).push(v),
{
    assert(found.push(None).drop_last() == found);
    assert(found.push(Some(v)).drop_last() == found);
}

/// A voice is cached where its model is, and each of its other files that it has;
/// what is missing is as large as all the files of the voices that are not.
pub proof fn law_what_is_missing_has_its_size(
    voices: Seq<VoiceV>,
    files: Seq<VoiceFiles>,
    v: VoiceV,
    f: VoiceFiles,
)
    requires
        voices.len() == files.len(),
    ensures
        is_cached(f) <==> f.model && (f.config is None || f.config->0) && (f.style is None
            || f.style->0),
        missing_size(Seq::empty(), Seq::empty()) == 0,
        is_cached(f) ==> missing_size(voices.push(v), files.push(f)) == missing_size(voices, files),
        !is_cached(f) ==> missing_size(voices.push(v), files.push(f)) == missing_size(voices, files)
            + v.model_size + (match v.config_size {
            Some(n) => n as int,
            None => 0,
        }) + (match v.style_size {
            Some(n) => n as int,
            None => 0,
        }),
        all_cached(files.push(f)) <==> all_cached(files) && is_cached(f),
{
    assert(voices.push(v).drop_last() == voices);
    assert(files.push(f).drop_last() == files);
    let more = files.push(f);
    if all_cached(more) {
        assert forall|i: int| 0 <= i < files.len() implies is_cached(#[trigger] files[i]) by {
            assert(is_cached(more[i]));
        }
        assert(is_cached(more[files.len() as int]));
    }
}

/// A size is told in whole megabytes, rounded down but one at least; nothing has
/// no size.
pub proof fn law_a_size_is_told_in_megabytes(bytes: nat)
    requires
        bytes <= 4_294_967_295_000_000,
    ensures
        megabytes(bytes) is None <==> bytes == 0,
        0 < bytes < 2_000_000 ==> megabytes(bytes) == Some(1u32),
        bytes >= 1_000_000 ==> (megabytes(bytes) matches Some(n) && n * 1_000_000 <= bytes < n
            * 1_000_000 + 1_000_000),
{
}

/// Where no language is set, English is; where some are, they are.
pub proof fn law_english_where_no_language_is_set(languages: Seq<Seq<char>>)
    ensures
        languages_or_english(Seq::empty()) == seq!["en"@],
        languages.len() > 0 ==> languages_or_english(languages) == languages,
        languages.len() > 0 ==> example_language(languages) == languages[0],
        example_language(Seq::empty()) == "en"@,
{
}

/// What is wrong with a setting is told in words that show it.
pub proof fn law_what_is_wrong_with_a_setting(
    shown: Seq<char>,
    voice: Seq<char>,
    languages: Seq<Seq<char>>,
    by_language: Seq<Option<VoiceV>>,
    first: Option<VoiceV>,
)
    ensures
        bad_quantization(shown) == "invalid `[stt.local].quantization = "@ + shown
            + "` — expected `auto`, `fp16`, `q5_1`, or `q8_0`"@,
        voice.len() > 0 ==> voices_needed(voice, None, languages, None, by_language, first) == Err::<
            Seq<VoiceV>,
            Seq<char>,
        >("[tts.local].voice = "@ + debug_text(voice) + " is not in the voice catalog"@),
        one_each(by_language).len() == 0 ==> voices_needed(
            Seq::empty(),
            None,
            languages,
            None,
            by_language,
            first,
        ) == Err::<Seq<VoiceV>, Seq<char>>(
            "no local voice in the catalog for any configured language (e.g. "@ + debug_text(
                if languages.len() == 0 {
                    "en"@
                } else {
                    languages[0]
                },
            ) + "); set [tts.local].voice to a catalog voice id"@,
        ),
{
}

/// How long is waited: three seconds for a rate, twenty for the first byte, looked
/// for ten times a second, and twenty-six for the verdict, which is longer than
/// both together.
pub proof fn law_how_long_is_waited()
    ensures
        RATE_SAMPLE_MS == 3_000,
        FIRST_BYTE_TIMEOUT_MS == 20_000,
        FIRST_BYTE_POLL_MS == 100,
        VERDICT_TIMEOUT_MS == 26_000,
        VERDICT_TIMEOUT_MS > RATE_SAMPLE_MS + FIRST_BYTE_TIMEOUT_MS,
{
}

} // verus!
