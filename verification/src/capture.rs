//! The selection capture engine.
//!
//! One capture attempt owns the clipboard: the previous text is recorded, a
//! fresh sentinel is written, the copy gesture is synthesized, and the
//! clipboard is polled under a deadline. Every polled sample is classified —
//! empty, still the sentinel, reverted to the previous content, or a genuine
//! new value — and only a genuine new value ends the attempt successfully.
//! Whatever happens, the attempt closes by directing the caller to restore
//! the previous clipboard text.
//!
//! The engine is a state machine: the caller performs the waiting, the
//! clipboard reads and writes and the key synthesis, hands each polled
//! sample to `on_tick`, performs the alternate gesture when told to, and
//! closes with `finish`.

use vstd::prelude::*;
use crate::sentinel::{sentinel_for, sentinel_marker, sentinel_of};
use crate::text::{contains_seq, str_contains, str_eq, trim_of, trim_seq};

verus! {

/// Ticks with a sample counted before the alternate gesture is tried.
pub const RETRY_THRESHOLD: u32 = 3;

/// The capture deadline when the caller supplies none, in milliseconds.
pub const DEFAULT_TIMEOUT_MS: u64 = 1200;

/// The wait before the gesture, in milliseconds, letting the user release
/// the hotkey modifiers so they do not corrupt the synthesized gesture.
pub const GRACE_PERIOD_MS: u64 = 180;

/// The interval between clipboard polls, in milliseconds.
pub const POLL_INTERVAL_MS: u64 = 90;

/// The bounded wait for the written sentinel to become observable, in
/// milliseconds; the attempt proceeds regardless once it is exhausted.
pub const SENTINEL_WAIT_MS: u64 = 300;

/// The interval between sentinel-wait polls, in milliseconds.
pub const SENTINEL_POLL_MS: u64 = 20;

/// The text of an optional clipboard sample, as a mathematical value.
pub open spec fn text_view(o: Option<String>) -> Option<Seq<char>> {
    match o {
        Some(s) => Some(s@),
        None => None,
    }
}

/// Classification of one polled clipboard sample.
#[derive(Debug, Clone, Copy, PartialEq, Eq, Structural)]
pub enum CaptureOutcome {
    /// Nothing but whitespace: keep polling.
    Empty,
    /// Still the sentinel, or text carrying its marker: the copy gesture has
    /// not landed yet.
    StillSentinel,
    /// The previous clipboard text again: the gesture produced no new
    /// selection; stale content is never accepted.
    RevertedToPrevious,
    /// A genuine new value: the capture succeeds.
    Other,
}

/// What the caller does after one tick.
#[derive(Debug, Clone, Copy, PartialEq, Eq, Structural)]
pub enum TickAction {
    /// Wait one interval and poll again.
    Continue,
    /// Synthesize the alternate copy gesture, then poll again.
    RetryAlternate,
    /// The capture succeeded: stop polling and close.
    Captured,
}

/// How one sample is classified, against trimmed text throughout.
pub open spec fn classify(cur: Seq<char>, sentinel: Seq<char>, previous: Option<Seq<char>>) -> CaptureOutcome {
    let t = trim_seq(cur);
    if t.len() == 0 {
        CaptureOutcome::Empty
    } else if t == sentinel || contains_seq(t, sentinel_marker()) {
        CaptureOutcome::StillSentinel
    } else if previous is Some && trim_seq(previous->0) == t {
        CaptureOutcome::RevertedToPrevious
    } else {
        CaptureOutcome::Other
    }
}

/// Classification of one sample, matching `classify`.
pub fn classify_sample(cur: &str, sentinel: &str, previous: &Option<String>) -> (r: CaptureOutcome)
    ensures
        r == classify(cur@, sentinel@, text_view(*previous)),
{
    let t: &str = trim_of(cur);
    if t.is_empty() {
        return CaptureOutcome::Empty;
    }
    if str_eq(t, sentinel) {
        return CaptureOutcome::StillSentinel;
    }
    let marker: &str = "__ERUDAITE_SENTINEL__";
    proof {
        reveal_strlit("__ERUDAITE_SENTINEL__");
        assert(marker@ =~= sentinel_marker());
    }
    if str_contains(t, marker) {
        return CaptureOutcome::StillSentinel;
    }
    match previous {
        Some(prev) => {
            if str_eq(trim_of(prev.as_str()), t) {
                CaptureOutcome::RevertedToPrevious
            } else {
                CaptureOutcome::Other
            }
        }
        None => CaptureOutcome::Other,
    }
}

/// The state of one capture attempt, as a mathematical value.
pub struct CaptureModel {
    /// The sentinel written for this attempt.
    pub sentinel: Seq<char>,
    /// The clipboard text recorded before any mutation.
    pub previous: Option<Seq<char>>,
    /// Samples seen so far, counted up to the retry threshold.
    pub polls: u32,
    /// Whether the alternate gesture was already directed.
    pub tried_alt: bool,
    /// The captured text, once a genuine new value arrived.
    pub picked: Option<Seq<char>>,
}

/// The state a capture attempt starts in.
pub open spec fn capture_init(previous: Option<Seq<char>>, now_ms: u64) -> CaptureModel {
    CaptureModel {
        sentinel: sentinel_of(now_ms),
        previous: previous,
        polls: 0,
        tried_alt: false,
        picked: None,
    }
}

/// One polling tick: the state change and the directed action. A sample that
/// could not be read changes nothing; a genuine new value is picked and ends
/// the attempt; otherwise polling continues, with one alternate-gesture
/// retry once the threshold is reached.
pub open spec fn capture_tick(m: CaptureModel, sample: Option<Seq<char>>) -> (
    CaptureModel,
    TickAction,
) {
    if m.picked is Some {
        (m, TickAction::Captured)
    } else {
        match sample {
            None => (m, TickAction::Continue),
            Some(cur) => {
                let polls = if m.polls < RETRY_THRESHOLD {
                    (m.polls + 1) as u32
                } else {
                    m.polls
                };
                let m1 = CaptureModel {
                    sentinel: m.sentinel,
                    previous: m.previous,
                    polls: polls,
                    tried_alt: m.tried_alt,
                    picked: m.picked,
                };
                match classify(cur, m.sentinel, m.previous) {
                    CaptureOutcome::Empty => capture_stall(m1),
                    CaptureOutcome::StillSentinel => capture_stall(m1),
                    CaptureOutcome::RevertedToPrevious => (m1, TickAction::Continue),
                    CaptureOutcome::Other => (
                        CaptureModel {
                            sentinel: m1.sentinel,
                            previous: m1.previous,
                            polls: m1.polls,
                            tried_alt: m1.tried_alt,
                            picked: Some(trim_seq(cur)),
                        },
                        TickAction::Captured,
                    ),
                }
            }
        }
    }
}

/// An unresolved tick (empty or still-sentinel sample): continue, except
/// that one alternate-gesture retry is directed once enough samples passed.
pub open spec fn capture_stall(m1: CaptureModel) -> (CaptureModel, TickAction) {
    if !m1.tried_alt && m1.polls >= RETRY_THRESHOLD {
        (
            CaptureModel {
                sentinel: m1.sentinel,
                previous: m1.previous,
                polls: m1.polls,
                tried_alt: true,
                picked: m1.picked,
            },
            TickAction::RetryAlternate,
        )
    } else {
        (m1, TickAction::Continue)
    }
}

/// The state after a whole sequence of polling ticks.
pub open spec fn capture_run(m: CaptureModel, samples: Seq<Option<Seq<char>>>) -> CaptureModel
    decreases samples.len(),
{
    if samples.len() == 0 {
        m
    } else {
        capture_run(capture_tick(m, samples[0]).0, samples.drop_first())
    }
}

/// The text a closed attempt returns: what was picked, or empty text.
pub open spec fn captured_text(m: CaptureModel) -> Seq<char> {
    match m.picked {
        Some(t) => t,
        None => Seq::empty(),
    }
}

/// What closing an attempt hands back to the caller.
pub struct CaptureFinish {
    /// The captured selection; empty when no qualifying sample arrived
    /// before the deadline.
    pub captured: String,
    /// The text to write back into the clipboard: always the previous
    /// content recorded when the attempt began.
    pub restore: Option<String>,
}

/// One capture attempt as an exec value; its mathematical state is a
/// `CaptureModel`.
pub struct CaptureSession {
    sentinel: String,
    previous: Option<String>,
    polls: u32,
    tried_alt: bool,
    picked: Option<String>,
}

impl View for CaptureSession {
    type V = CaptureModel;

    closed spec fn view(&self) -> CaptureModel {
        CaptureModel {
            sentinel: self.sentinel@,
            previous: text_view(self.previous),
            polls: self.polls,
            tried_alt: self.tried_alt,
            picked: text_view(self.picked),
        }
    }
}

impl CaptureSession {
    /// Opens one capture attempt. `previous` is the clipboard text recorded
    /// before any mutation; `now_ms` is the start instant, which makes the
    /// sentinel fresh.
    pub fn begin(previous: Option<String>, now_ms: u64) -> (r: Self)
        ensures
            r@ == capture_init(text_view(previous), now_ms),
    {
        CaptureSession {
            sentinel: sentinel_for(now_ms),
            previous: previous,
            polls: 0,
            tried_alt: false,
            picked: None,
        }
    }

    /// The sentinel to write into the clipboard before the copy gesture.
    pub fn sentinel_text(&self) -> (r: &str)
        ensures
            r@ == self@.sentinel,
    {
        self.sentinel.as_str()
    }

    /// Whether a sample shows the written sentinel landed verbatim; the
    /// caller polls for this briefly before synthesizing the gesture, to
    /// tolerate clipboard propagation lag.
    pub fn sentinel_observed(&self, sample: &Option<String>) -> (r: bool)
        ensures
            r == (text_view(*sample) matches Some(cur) && trim_seq(cur) == self@.sentinel),
    {
        match sample {
            Some(cur) => str_eq(trim_of(cur.as_str()), self.sentinel.as_str()),
            None => false,
        }
    }

    /// One polling tick. The state change and the directed action are
    /// exactly `capture_tick` of the sample.
    pub fn on_tick(&mut self, sample: &Option<String>) -> (r: TickAction)
        ensures
            final(self)@ == capture_tick(old(self)@, text_view(*sample)).0,
            r == capture_tick(old(self)@, text_view(*sample)).1,
    {
        if self.picked.is_some() {
            return TickAction::Captured;
        }
        match sample {
            None => TickAction::Continue,
            Some(cur) => {
                if self.polls < RETRY_THRESHOLD {
                    self.polls = self.polls + 1;
                }
                let outcome = classify_sample(cur.as_str(), self.sentinel.as_str(), &self.previous);
                match outcome {
                    CaptureOutcome::Empty | CaptureOutcome::StillSentinel => {
                        if !self.tried_alt && self.polls >= RETRY_THRESHOLD {
                            self.tried_alt = true;
                            TickAction::RetryAlternate
                        } else {
                            TickAction::Continue
                        }
                    }
                    CaptureOutcome::RevertedToPrevious => TickAction::Continue,
                    CaptureOutcome::Other => {
                        self.picked = Some(trim_of(cur.as_str()).to_owned());
                        TickAction::Captured
                    }
                }
            }
        }
    }

    /// Closes the attempt: hands back the captured text (empty when nothing
    /// qualified) and the previous clipboard content to restore. Restoration
    /// is owed on every exit path, so the clipboard's observable state after
    /// the call matches its state before it.
    pub fn finish(self) -> (r: CaptureFinish)
        ensures
            text_view(r.restore) == self@.previous,
            r.captured@ == captured_text(self@),
    {
        let CaptureSession { sentinel: _, previous, polls: _, tried_alt: _, picked } = self;
        let captured = match picked {
            Some(t) => t,
            None => String::new(),
        };
        CaptureFinish { captured, restore: previous }
    }
}

/// The samples of a recorded polling trace, as mathematical values.
pub open spec fn samples_view(samples: Seq<Option<String>>) -> Seq<Option<Seq<char>>> {
    samples.map_values(|s: Option<String>| text_view(s))
}

/// A run after one more tick at the end.
proof fn lemma_run_snoc(m: CaptureModel, pre: Seq<Option<Seq<char>>>, s: Option<Seq<char>>)
    ensures
        capture_run(m, pre.push(s)) == capture_tick(capture_run(m, pre), s).0,
    decreases pre.len(),
{
    if pre.len() == 0 {
        let t0 = capture_tick(m, s).0;
        assert(pre.push(s)[0] == s);
        assert(pre.push(s).drop_first() =~= Seq::<Option<Seq<char>>>::empty());
        assert(capture_run(m, pre.push(s)) == capture_run(t0, pre.push(s).drop_first()));
        assert(capture_run(t0, Seq::<Option<Seq<char>>>::empty()) == t0);
        assert(capture_run(m, pre) == m);
    } else {
        let m1 = capture_tick(m, pre[0]).0;
        assert(pre.push(s)[0] == pre[0]);
        assert(pre.push(s).drop_first() =~= pre.drop_first().push(s));
        assert(capture_run(m, pre.push(s)) == capture_run(m1, pre.drop_first().push(s)));
        lemma_run_snoc(m1, pre.drop_first(), s);
        assert(capture_run(m, pre) == capture_run(m1, pre.drop_first()));
    }
}

/// One whole capture attempt over a recorded sequence of polled samples:
/// begins at `now_ms`, feeds every sample in order, and closes. The text to
/// restore is always the previous clipboard content.
pub fn capture_from_samples(
    previous: Option<String>,
    now_ms: u64,
    samples: &Vec<Option<String>>,
) -> (r: CaptureFinish)
    ensures
        text_view(r.restore) == text_view(previous),
        r.captured@ == captured_text(
            capture_run(capture_init(text_view(previous), now_ms), samples_view(samples@)),
        ),
{
    let ghost m0 = capture_init(text_view(previous), now_ms);
    let mut session = CaptureSession::begin(previous, now_ms);
    let ghost all = samples_view(samples@);
    proof {
        assert(all.take(0) =~= Seq::<Option<Seq<char>>>::empty());
    }
    let mut i: usize = 0;
    while i < samples.len()
        invariant
            0 <= i <= samples.len(),
            all == samples_view(samples@),
            all.len() == samples@.len(),
            session@ == capture_run(m0, all.take(i as int)),
        decreases samples.len() - i,
    {
        let ghost pre = all.take(i as int);
        session.on_tick(&samples[i]);
        proof {
            assert(all.take(i + 1) =~= pre.push(all[i as int]));
            lemma_run_snoc(m0, pre, all[i as int]);
        }
        i = i + 1;
    }
    proof {
        assert(all.take(samples@.len() as int) =~= all);
        lemma_run_keeps_context(m0, all);
    }
    session.finish()
}

/// The actions a whole run directs, in order.
pub open spec fn capture_actions(m: CaptureModel, samples: Seq<Option<Seq<char>>>) -> Seq<
    TickAction,
>
    decreases samples.len(),
{
    if samples.len() == 0 {
        Seq::empty()
    } else {
        seq![capture_tick(m, samples[0]).1] + capture_actions(
            capture_tick(m, samples[0]).0,
            samples.drop_first(),
        )
    }
}

/// How many of the directed actions ask for the alternate gesture.
pub open spec fn retry_count(actions: Seq<TickAction>) -> nat
    decreases actions.len(),
{
    if actions.len() == 0 {
        0
    } else {
        (if actions[0] is RetryAlternate {
            1nat
        } else {
            0nat
        }) + retry_count(actions.drop_first())
    }
}

proof fn lemma_retries_bounded(m: CaptureModel, samples: Seq<Option<Seq<char>>>)
    ensures
        retry_count(capture_actions(m, samples)) <= 1,
        m.tried_alt ==> retry_count(capture_actions(m, samples)) == 0,
    decreases samples.len(),
{
    if samples.len() > 0 {
        let m1 = capture_tick(m, samples[0]).0;
        let a = capture_tick(m, samples[0]).1;
        let tail = capture_actions(m1, samples.drop_first());
        lemma_retries_bounded(m1, samples.drop_first());
        let acts = capture_actions(m, samples);
        assert(acts == seq![a] + tail);
        assert(acts[0] == a);
        assert(acts.drop_first() =~= tail);
        assert(retry_count(acts) == (if a is RetryAlternate {
            1nat
        } else {
            0nat
        }) + retry_count(tail));
        assert(a is RetryAlternate ==> !m.tried_alt && m1.tried_alt);
        assert(!(a is RetryAlternate) ==> m1.tried_alt == m.tried_alt);
    }
}

/// Law: one alternate-gesture retry at most — whatever the polled samples,
/// a capture attempt directs the alternate copy gesture at most once.
pub proof fn lemma_retry_at_most_once(
    previous: Option<Seq<char>>,
    now_ms: u64,
    samples: Seq<Option<Seq<char>>>,
)
    ensures
        retry_count(capture_actions(capture_init(previous, now_ms), samples)) <= 1,
{
    lemma_retries_bounded(capture_init(previous, now_ms), samples);
}

/// A run changes neither the sentinel nor the previous clipboard text it
/// must restore.
proof fn lemma_run_keeps_context(m: CaptureModel, samples: Seq<Option<Seq<char>>>)
    ensures
        capture_run(m, samples).previous == m.previous,
        capture_run(m, samples).sentinel == m.sentinel,
    decreases samples.len(),
{
    if samples.len() > 0 {
        lemma_run_keeps_context(capture_tick(m, samples[0]).0, samples.drop_first());
    }
}

/// Law: clipboard restoration — whatever the polled samples, a capture run
/// keeps the previous clipboard text recorded at the start, so closing the
/// attempt always directs restoring exactly that text.
pub proof fn lemma_restoration(
    previous: Option<Seq<char>>,
    now_ms: u64,
    samples: Seq<Option<Seq<char>>>,
)
    ensures
        capture_run(capture_init(previous, now_ms), samples).previous == previous,
{
    lemma_run_keeps_context(capture_init(previous, now_ms), samples);
}

/// A run from a state that picked nothing, over samples none of which
/// classifies as a genuine new value, still picks nothing.
proof fn lemma_run_no_other(m: CaptureModel, samples: Seq<Option<Seq<char>>>)
    requires
        m.picked is None,
        forall|k: int|
            0 <= k < samples.len() ==> (#[trigger] samples[k] matches Some(cur) ==> classify(
                cur,
                m.sentinel,
                m.previous,
            ) != CaptureOutcome::Other),
    ensures
        capture_run(m, samples).picked is None,
    decreases samples.len(),
{
    if samples.len() > 0 {
        let m1 = capture_tick(m, samples[0]).0;
        assert(samples[0] matches Some(cur) ==> classify(cur, m.sentinel, m.previous)
            != CaptureOutcome::Other);
        assert(m1.picked is None);
        assert(m1.sentinel == m.sentinel && m1.previous == m.previous);
        assert(forall|k: int|
            0 <= k < samples.drop_first().len() ==> #[trigger] samples.drop_first()[k] == samples[
                k + 1
            ]);
        lemma_run_no_other(m1, samples.drop_first());
    }
}

/// Law: no false-positive capture — when no polled sample classifies as a
/// genuine new value (in particular when every sample is unreadable, empty,
/// the sentinel, or the previous clipboard text again), the attempt picks
/// nothing and returns empty text.
pub proof fn lemma_no_false_positive(
    previous: Option<Seq<char>>,
    now_ms: u64,
    samples: Seq<Option<Seq<char>>>,
)
    requires
        forall|k: int|
            0 <= k < samples.len() ==> (#[trigger] samples[k] matches Some(cur) ==> classify(
                cur,
                sentinel_of(now_ms),
                previous,
            ) != CaptureOutcome::Other),
    ensures
        capture_run(capture_init(previous, now_ms), samples).picked is None,
        captured_text(capture_run(capture_init(previous, now_ms), samples)) == Seq::<char>::empty(),
{
    lemma_run_no_other(capture_init(previous, now_ms), samples);
}

} // verus!
