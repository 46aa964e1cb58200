//! Per-session composition buffer.
//!
//! A [`CompositionBuffer`] holds the in-flight composition of one remote
//! session: the composed text, the raw keystrokes that produced it, and a
//! history of snapshots used for last-applied-first-removed backspace
//! reversal. Engines drive composition by pushing keys and recording steps;
//! the buffer stores state, bounds the history and supports
//! reversal/commit/flush.

use std::time::Instant;

use vstd::prelude::*;

use crate::text::push_char;
use crate::{TransformStep, VietSessionId};

verus! {

/// Default maximum number of characters held in flight by the buffer.
pub const DEFAULT_CAPACITY: usize = 20;

/// Maximum number of transformation-history entries retained.
pub const MAX_HISTORY_STEPS: usize = 10;

#[verifier::external_type_specification]
#[verifier::external_body]
pub struct ExInstant(std::time::Instant);

/// The current instant (`Instant::now`); nothing is promised of its value.
#[verifier::external_body]
pub(crate) fn now() -> Instant {
    Instant::now()
}

/// Nanoseconds elapsed since `t` (`Instant::elapsed`, then
/// `Duration::as_nanos`); it depends on the clock, so nothing is promised.
#[verifier::external_body]
pub(crate) fn nanos_since(t: &Instant) -> u128 {
    t.elapsed().as_nanos()
}

/// A history snapshot: composed text, raw input, and the step that led to it.
pub type Snap = (Seq<char>, Seq<char>, TransformStep);

/// The abstract state of a buffer: composed text, raw keystrokes, history.
pub struct BufferView {
    pub current: Seq<char>,
    pub raw: Seq<char>,
    pub history: Seq<Snap>,
}

/// The history after appending a snapshot, keeping only the most recent
/// [`MAX_HISTORY_STEPS`] entries.
pub open spec fn capped(h: Seq<Snap>) -> Seq<Snap> {
    if h.len() > MAX_HISTORY_STEPS {
        h.skip(h.len() - MAX_HISTORY_STEPS)
    } else {
        h
    }
}

/// `v` with a snapshot of its current state, tagged with `step`, recorded.
pub open spec fn record_model(v: BufferView, step: TransformStep) -> BufferView {
    BufferView { current: v.current, raw: v.raw, history: capped(v.history.push((v.current, v.raw, step))) }
}

/// `v` after pushing the base character `key`.
pub open spec fn push_model(v: BufferView, key: char) -> BufferView {
    record_model(
        BufferView { current: v.current.push(key), raw: v.raw.push(key), history: v.history },
        TransformStep::BaseCharacter(key),
    )
}

/// `v` after undoing its most recent step, with the removed snapshot; the
/// text and raw input return to the snapshot below it, or to empty.
pub open spec fn pop_model(v: BufferView) -> (BufferView, Option<Snap>) {
    if v.history.len() == 0 {
        (v, None)
    } else {
        let h = v.history.drop_last();
        if h.len() > 0 {
            (BufferView { current: h.last().0, raw: h.last().1, history: h }, Some(v.history.last()))
        } else {
            (BufferView { current: Seq::empty(), raw: Seq::empty(), history: h }, Some(v.history.last()))
        }
    }
}

/// The text and raw input agree with the newest snapshot (or are empty when
/// there is none): the state every buffer operation keeps.
pub open spec fn synced(v: BufferView) -> bool {
    if v.history.len() == 0 {
        v.current.len() == 0 && v.raw.len() == 0
    } else {
        v.history.last().0 == v.current && v.history.last().1 == v.raw
    }
}

/// Per-session buffer tracking composition state and backspace history.
#[derive(Debug, Clone, Default)]
pub struct CompositionBuffer {
    /// Current composed text being built.
    pub current: String,
    /// Raw keystroke sequence for the current composition.
    pub raw_input: Vec<char>,
    /// History stack for backspace reversal.
    pub history: Vec<CompositionState>,
    /// Maximum buffer capacity (in characters).
    pub capacity: usize,
    /// Session identifier this buffer belongs to.
    pub session_id: VietSessionId,
    /// Time of the most recent keystroke recorded into this buffer; reset to
    /// `None` when the buffer is committed, flushed or cleared. A non-empty
    /// buffer whose last keystroke is older than a timeout is stale.
    pub last_keystroke: Option<Instant>,
}

/// A snapshot of the composition state at one point.
#[derive(Debug, Clone, PartialEq, Eq)]
pub struct CompositionState {
    /// The composed text at this point.
    pub text: String,
    /// The raw input at this point.
    pub raw: Vec<char>,
    /// The transformation applied to reach this state.
    pub transform: TransformStep,
}

impl CompositionState {
    pub open spec fn snap(self) -> Snap {
        (self.text@, self.raw@, self.transform)
    }
}

impl View for CompositionBuffer {
    type V = BufferView;

    open spec fn view(&self) -> BufferView {
        BufferView {
            current: self.current@,
            raw: self.raw_input@,
            history: self.history@.map_values(|s: CompositionState| s.snap()),
        }
    }
}

/// The abstract state of an empty buffer.
pub open spec fn empty_view() -> BufferView {
    BufferView { current: Seq::empty(), raw: Seq::empty(), history: Seq::empty() }
}

fn clone_chars(v: &Vec<char>) -> (r: Vec<char>)
    ensures
        r@ == v@,
{
    let r = v.clone();
    assert(r@ =~= v@);
    r
}

impl CompositionBuffer {
    /// The fields other than the composition state are those of `other`.
    pub open spec fn same_identity(self, other: Self) -> bool {
        &&& self.capacity == other.capacity
        &&& self.session_id@ == other.session_id@
    }

    /// A new, empty buffer for the given session, with capacity
    /// [`DEFAULT_CAPACITY`].
    pub fn new(session_id: VietSessionId) -> (r: Self)
        ensures
            r@ == empty_view(),
            r.capacity == DEFAULT_CAPACITY,
            r.session_id@ == session_id@,
            r.last_keystroke is None,
    {
        let r = CompositionBuffer {
            current: String::new(),
            raw_input: Vec::new(),
            history: Vec::new(),
            capacity: DEFAULT_CAPACITY,
            session_id,
            last_keystroke: None,
        };
        assert(r@.history =~= Seq::<Snap>::empty());
        r
    }

    /// Push a key as a new base character: it is appended to the raw input
    /// and to the composed text, and a [`TransformStep::BaseCharacter`] step
    /// is recorded. Returns the composed text after the push.
    pub fn push_key(&mut self, key: char) -> (r: &str)
        ensures
            final(self)@ == push_model(old(self)@, key),
            final(self).same_identity(*old(self)),
            final(self).last_keystroke == old(self).last_keystroke,
            r@ == final(self).current@,
    {
        self.raw_input.push(key);
        push_char(&mut self.current, key);
        self.record_step(TransformStep::BaseCharacter(key));
        self.current.as_str()
    }

    /// Record a snapshot of the current text and raw input, tagged with
    /// `transform`. When the history grows beyond [`MAX_HISTORY_STEPS`]
    /// entries, the oldest ones are discarded.
    pub fn record_step(&mut self, transform: TransformStep)
        ensures
            final(self)@ == record_model(old(self)@, transform),
            final(self).same_identity(*old(self)),
            final(self).last_keystroke == old(self).last_keystroke,
    {
        let ghost old_h = self@.history;
        let snap = CompositionState {
            text: self.current.clone(),
            raw: clone_chars(&self.raw_input),
            transform,
        };
        self.history.push(snap);
        assert(self@.history =~= old_h.push((self@.current, self@.raw, transform)));
        if self.history.len() > MAX_HISTORY_STEPS {
            let overflow = self.history.len() - MAX_HISTORY_STEPS;
            let ghost full = self@.history;
            let kept = self.history.split_off(overflow);
            self.history = kept;
            assert(self@.history =~= full.skip(overflow as int));
        }
    }

    /// Undo the most recent step (LIFO backspace): the newest snapshot is
    /// removed and the text and raw input return to the one below it, or to
    /// empty. Returns the removed snapshot, or `None` if there is no history.
    pub fn pop_step(&mut self) -> (r: Option<CompositionState>)
        ensures
            final(self)@ == pop_model(old(self)@).0,
            match r {
                Some(s) => pop_model(old(self)@).1 == Some(s.snap()),
                None => pop_model(old(self)@).1 is None,
            },
            final(self).same_identity(*old(self)),
            final(self).last_keystroke == old(self).last_keystroke,
    {
        let ghost old_h = self@.history;
        match self.history.pop() {
            None => None,
            Some(popped) => {
                assert(self@.history =~= old_h.drop_last());
                let n = self.history.len();
                if n > 0 {
                    self.current = self.history[n - 1].text.clone();
                    self.raw_input = clone_chars(&self.history[n - 1].raw);
                } else {
                    self.current = String::new();
                    self.raw_input = Vec::new();
                }
                Some(popped)
            },
        }
    }

    /// Commit the composition: return the composed text and reset the
    /// buffer to empty.
    pub fn commit(&mut self) -> (r: String)
        ensures
            r@ == old(self)@.current,
            final(self)@ == empty_view(),
            final(self).same_identity(*old(self)),
            final(self).last_keystroke is None,
    {
        let mut out = String::new();
        std::mem::swap(&mut out, &mut self.current);
        self.raw_input = Vec::new();
        self.history = Vec::new();
        self.last_keystroke = None;
        assert(self@.history =~= Seq::<Snap>::empty());
        out
    }

    /// Flush the buffer as raw text: return the raw keystrokes and reset the
    /// buffer to empty.
    pub fn flush_raw(&mut self) -> (r: String)
        ensures
            r@ == old(self)@.raw,
            final(self)@ == empty_view(),
            final(self).same_identity(*old(self)),
            final(self).last_keystroke is None,
    {
        let out = crate::text::string_of(self.raw_input.as_slice());
        self.clear();
        out
    }

    /// Reset the buffer to empty, discarding composition state and history;
    /// the session id and capacity are kept.
    pub fn clear(&mut self)
        ensures
            final(self)@ == empty_view(),
            final(self).same_identity(*old(self)),
            final(self).last_keystroke is None,
    {
        self.current = String::new();
        self.raw_input = Vec::new();
        self.history = Vec::new();
        self.last_keystroke = None;
        assert(self@.history =~= Seq::<Snap>::empty());
    }

    /// Record that a keystroke was just processed into this buffer.
    pub fn touch(&mut self)
        ensures
            final(self)@ == old(self)@,
            final(self).same_identity(*old(self)),
            final(self).last_keystroke is Some,
    {
        self.last_keystroke = Some(now());
    }

    /// The time of the most recent recorded keystroke, if any.
    pub fn last_keystroke(&self) -> (r: Option<Instant>)
        ensures
            r == self.last_keystroke,
    {
        self.last_keystroke
    }

    /// `true` when the buffer holds an in-flight composition whose most
    /// recent keystroke is at least `timeout_nanos` nanoseconds old. An empty
    /// buffer, or one with no recorded keystroke, is never timed out; with a
    /// zero timeout every other buffer is.
    pub fn is_timed_out(&self, timeout_nanos: u128) -> (r: bool)
        ensures
            r ==> !self.spec_is_empty() && self.last_keystroke is Some,
            timeout_nanos == 0 ==> r == (!self.spec_is_empty() && self.last_keystroke is Some),
    {
        if self.is_empty() {
            return false;
        }
        match &self.last_keystroke {
            Some(t) => self.is_timed_out_after(nanos_since(t), timeout_nanos),
            None => false,
        }
    }

    /// `true` when the buffer holds an in-flight composition with a recorded
    /// keystroke made `elapsed_nanos` nanoseconds ago, and that is at least
    /// `timeout_nanos`.
    pub fn is_timed_out_after(&self, elapsed_nanos: u128, timeout_nanos: u128) -> (r: bool)
        ensures
            r == (!self.spec_is_empty() && self.last_keystroke is Some && elapsed_nanos >= timeout_nanos),
    {
        !self.is_empty() && self.last_keystroke.is_some() && elapsed_nanos >= timeout_nanos
    }

    pub open spec fn spec_is_empty(&self) -> bool {
        self.current@.len() == 0 && self.raw_input@.len() == 0
    }

    /// `true` when the buffer holds no in-flight composition.
    pub fn is_empty(&self) -> (r: bool)
        ensures
            r == self.spec_is_empty(),
    {
        self.current.as_str().is_empty() && self.raw_input.len() == 0
    }

    /// The number of Unicode scalar values in the composed text.
    pub fn len(&self) -> (r: usize)
        ensures
            r == self.current@.len(),
    {
        self.current.as_str().unicode_len()
    }

    /// The composed text.
    pub fn current_text(&self) -> (r: &str)
        ensures
            r@ == self.current@,
    {
        self.current.as_str()
    }
}

} // verus!
