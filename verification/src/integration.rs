//! Keyboard-pipeline integration for the Vietnamese input composer.
//!
//! The host turns each platform key press into a list of [`KeyEvent`]s and,
//! while the feature is enabled, routes that list through
//! [`compose_key_events`] before sending it to the remote session:
//!
//! - a configured shortcut chord (toggle / cycle the input method) is acted
//!   upon on key-down and dropped, key-down and key-up alike;
//! - a printable typed character (a key-down event carrying exactly one char
//!   as text) is fed to the composer: a buffered keystroke is dropped, a
//!   completed composition or a flushed raw sequence replaces the event with
//!   a text event, and a pass-through keeps the original event;
//! - every other event is kept unchanged.
//!
//! The feature gate, the composer and the shortcut bindings are held together
//! in an [`InputState`] owned by the host.

use vstd::prelude::*;

use crate::composer::{
    key_step, next_method, select_model, toggle_model, ComposerView, Outcome, SessionState,
    VietnameseComposer, DEFAULT_TIMEOUT,
};
use crate::key_event::{blank_event, copy_event, event_views, text_of, ControlKey, EventView, KeyEvent, KeyPayload, PayloadView};
use crate::text::{ascii_lower, chars_eq, ident_chars, normalized_ident, spec_ascii_lower};
use crate::unicode_norm::NormalizationForm;
use crate::{ComposerResult, InputMethod};

verus! {

/// The session id used by the host until per-session routing is wired up.
pub const DEFAULT_SESSION_ID: &'static str = "__vn_default_session__";

/// An action triggered by a recognized keyboard shortcut.
#[derive(Debug, Clone, Copy, PartialEq, Eq, Structural)]
pub enum ShortcutAction {
    /// Toggle Vietnamese input on/off (default Ctrl+Shift+V).
    Toggle,
    /// Cycle through the input methods (default Ctrl+Shift+I).
    Cycle,
}

/// A keyboard chord: the required modifiers plus one trigger key, stored as
/// lowercase ASCII so matching is case-insensitive. Left and right modifier
/// variants are equivalent.
#[derive(Debug, Clone, Copy, PartialEq, Eq, Structural)]
pub struct Chord {
    /// Control (left or right).
    pub ctrl: bool,
    /// Shift (left or right).
    pub shift: bool,
    /// Alt (left or right).
    pub alt: bool,
    /// Meta / Super / Windows (left or right).
    pub meta: bool,
    /// The trigger key.
    pub key: char,
}

/// The modifiers held on a key event, left/right variants collapsed and lock
/// keys ignored.
#[derive(Debug, Clone, Copy, PartialEq, Eq, Structural)]
pub struct ChordModifiers {
    pub ctrl: bool,
    pub shift: bool,
    pub alt: bool,
    pub meta: bool,
}

/// `c` satisfies the chord's modifiers exactly and its key up to ASCII case.
pub open spec fn chord_matches(chord: Chord, mods: ChordModifiers, key: char) -> bool {
    &&& chord.ctrl == mods.ctrl
    &&& chord.shift == mods.shift
    &&& chord.alt == mods.alt
    &&& chord.meta == mods.meta
    &&& chord.key == spec_ascii_lower(key)
}

impl Chord {
    /// A chord with the given modifiers; `key` is stored lowercased (ASCII).
    pub fn new(ctrl: bool, shift: bool, alt: bool, meta: bool, key: char) -> (r: Self)
        ensures
            r == (Chord { ctrl, shift, alt, meta, key: spec_ascii_lower(key) }),
    {
        Chord { ctrl, shift, alt, meta, key: ascii_lower(key) }
    }

    /// The chord `Ctrl+Shift+<key>`.
    pub fn ctrl_shift(key: char) -> (r: Self)
        ensures
            r == (Chord { ctrl: true, shift: true, alt: false, meta: false, key: spec_ascii_lower(key) }),
    {
        Self::new(true, true, false, false, key)
    }

    /// Whether the chord is satisfied by the modifiers and trigger key.
    pub fn matches(&self, mods: &ChordModifiers, key: char) -> (r: bool)
        ensures
            r == chord_matches(*self, *mods, key),
    {
        self.ctrl == mods.ctrl && self.shift == mods.shift && self.alt == mods.alt && self.meta == mods.meta
            && self.key == ascii_lower(key)
    }
}

/// The configurable shortcut bindings.
#[derive(Debug, Clone, Copy, PartialEq, Eq, Structural)]
pub struct ShortcutConfig {
    /// Chord that toggles Vietnamese input on/off.
    pub toggle: Chord,
    /// Chord that cycles through the input methods.
    pub cycle: Chord,
}

/// The default bindings: Ctrl+Shift+V toggles, Ctrl+Shift+I cycles.
pub open spec fn default_shortcuts() -> ShortcutConfig {
    ShortcutConfig {
        toggle: Chord { ctrl: true, shift: true, alt: false, meta: false, key: 'v' },
        cycle: Chord { ctrl: true, shift: true, alt: false, meta: false, key: 'i' },
    }
}

impl Default for ShortcutConfig {
    fn default() -> (r: Self)
        ensures
            r == default_shortcuts(),
    {
        ShortcutConfig { toggle: Chord::ctrl_shift('v'), cycle: Chord::ctrl_shift('i') }
    }
}

/// The printable char a key-down event types: its text when that is exactly
/// one char.
pub open spec fn typed_char_of(e: EventView) -> Option<char> {
    if e.down && text_of(e).len() == 1 {
        Some(text_of(e)[0])
    } else {
        None
    }
}

/// The char typed by a key-down event carrying exactly one char of text;
/// `None` for key-up events, events without text and longer texts.
pub fn typed_char(event: &KeyEvent) -> (r: Option<char>)
    ensures
        r == typed_char_of(event@),
{
    if !event.down {
        return None;
    }
    match &event.union {
        Some(KeyPayload::Text(s)) => {
            if s.as_str().unicode_len() == 1 {
                Some(s.as_str().get_char(0))
            } else {
                None
            }
        },
        _ => None,
    }
}

/// Some modifier of `mods` is `a` or `b`.
pub open spec fn has_either(mods: Seq<ControlKey>, a: ControlKey, b: ControlKey) -> bool {
    exists|i: int| 0 <= i < mods.len() && (#[trigger] mods[i] == a || mods[i] == b)
}

/// The chord modifiers held on an event.
pub open spec fn modifiers_of(e: EventView) -> ChordModifiers {
    ChordModifiers {
        ctrl: has_either(e.modifiers, ControlKey::Control, ControlKey::RControl),
        shift: has_either(e.modifiers, ControlKey::Shift, ControlKey::RShift),
        alt: has_either(e.modifiers, ControlKey::Alt, ControlKey::RAlt),
        meta: has_either(e.modifiers, ControlKey::Meta, ControlKey::RWin),
    }
}

/// The Ctrl/Shift/Alt/Meta modifiers held on a key event.
pub fn chord_modifiers(event: &KeyEvent) -> (r: ChordModifiers)
    ensures
        r == modifiers_of(event@),
{
    let mut mods = ChordModifiers { ctrl: false, shift: false, alt: false, meta: false };
    let mut i: usize = 0;
    let ghost ms = event.modifiers@;
    while i < event.modifiers.len()
        invariant
            i <= ms.len(),
            ms == event.modifiers@,
            mods == modifiers_of(EventView { modifiers: ms.take(i as int), ..event@ }),
        decreases ms.len() - i,
    {
        let m = event.modifiers[i];
        let ghost prefix = ms.take(i as int);
        let ghost next = ms.take(i as int + 1);
        proof {
            assert(next == prefix.push(m));
            assert forall|a: ControlKey, b: ControlKey| has_either(next, a, b) == (has_either(prefix, a, b) || m == a
                || m == b) by {
                if has_either(next, a, b) {
                    let j = choose|j: int| 0 <= j < next.len() && (#[trigger] next[j] == a || next[j] == b);
                    if j < prefix.len() {
                        assert(prefix[j] == next[j]);
                    }
                }
                if has_either(prefix, a, b) {
                    let j = choose|j: int| 0 <= j < prefix.len() && (#[trigger] prefix[j] == a || prefix[j] == b);
                    assert(next[j] == prefix[j]);
                }
                if m == a || m == b {
                    assert(next[i as int] == m);
                }
            }
        }
        if m == ControlKey::Control || m == ControlKey::RControl {
            mods.ctrl = true;
        } else if m == ControlKey::Shift || m == ControlKey::RShift {
            mods.shift = true;
        } else if m == ControlKey::Alt || m == ControlKey::RAlt {
            mods.alt = true;
        } else if m == ControlKey::Meta || m == ControlKey::RWin {
            mods.meta = true;
        }
        i += 1;
    }
    proof {
        assert(ms.take(ms.len() as int) =~= ms);
    }
    mods
}

/// The trigger key a shortcut chord event carries, lowercased: the single
/// char of a text payload, or a character code whose low 16 bits are a
/// printable non-space ASCII char.
pub open spec fn shortcut_key_of(e: EventView) -> Option<char> {
    match e.payload {
        Some(PayloadView::Text(s)) => if s.len() == 1 {
            Some(spec_ascii_lower(s[0]))
        } else {
            None
        },
        Some(PayloadView::Chr(code)) => {
            let v = code % 65536;
            if 33 <= v <= 126 {
                Some(spec_ascii_lower(v as char))
            } else {
                None
            }
        },
        _ => None,
    }
}

/// The trigger character of a shortcut chord event, if it carries one (see
/// [`shortcut_key_of`]).
pub fn shortcut_key_char(event: &KeyEvent) -> (r: Option<char>)
    ensures
        r == shortcut_key_of(event@),
{
    match &event.union {
        Some(KeyPayload::Text(s)) => {
            if s.as_str().unicode_len() == 1 {
                Some(ascii_lower(s.as_str().get_char(0)))
            } else {
                None
            }
        },
        Some(KeyPayload::Chr(code)) => {
            let v = *code & 0xFFFF;
            assert(v == *code % 65536) by (bit_vector)
                requires
                    v == *code & 0xFFFF,
            ;
            if v >= 33 && v <= 126 {
                let c = (v as u8) as char;
                Some(ascii_lower(c))
            } else {
                None
            }
        },
        _ => None,
    }
}

/// The shortcut action an event represents under `sc`, if any: it needs a
/// trigger key and at least one modifier; the toggle chord is checked first.
pub open spec fn shortcut_of(sc: ShortcutConfig, e: EventView) -> Option<ShortcutAction> {
    match shortcut_key_of(e) {
        None => None,
        Some(key) => {
            let m = modifiers_of(e);
            if !(m.ctrl || m.shift || m.alt || m.meta) {
                None
            } else if chord_matches(sc.toggle, m, key) {
                Some(ShortcutAction::Toggle)
            } else if chord_matches(sc.cycle, m, key) {
                Some(ShortcutAction::Cycle)
            } else {
                None
            }
        },
    }
}

/// The shortcut action a key event represents under the given bindings.
pub fn match_shortcut_with(shortcuts: &ShortcutConfig, event: &KeyEvent) -> (r: Option<ShortcutAction>)
    ensures
        r == shortcut_of(*shortcuts, event@),
{
    let key = match shortcut_key_char(event) {
        Some(k) => k,
        None => return None,
    };
    let mods = chord_modifiers(event);
    if !(mods.ctrl || mods.shift || mods.alt || mods.meta) {
        return None;
    }
    if shortcuts.toggle.matches(&mods, key) {
        Some(ShortcutAction::Toggle)
    } else if shortcuts.cycle.matches(&mods, key) {
        Some(ShortcutAction::Cycle)
    } else {
        None
    }
}

/// The parts of a composer's state that keystrokes and shortcuts determine.
pub struct ComposerCore {
    pub sessions: Map<Seq<char>, SessionState>,
    pub active: InputMethod,
    pub last_active: InputMethod,
    pub form: NormalizationForm,
}

/// The core of a composer's state.
pub open spec fn core_of(v: ComposerView) -> ComposerCore {
    ComposerCore { sessions: v.sessions, active: v.active, last_active: v.last_active, form: v.form }
}

/// A composer state with the given core.
pub open spec fn view_with(c: ComposerCore) -> ComposerView {
    ComposerView {
        sessions: c.sessions,
        active: c.active,
        last_active: c.last_active,
        form: c.form,
        slow_keystrokes: 0,
        memory_warning: false,
    }
}

/// The core after a shortcut action.
pub open spec fn shortcut_model(c: ComposerCore, a: ShortcutAction) -> ComposerCore {
    let (active, last) = match a {
        ShortcutAction::Toggle => toggle_model(c.active, c.last_active),
        ShortcutAction::Cycle => select_model(next_method(c.active), c.last_active),
    };
    ComposerCore { sessions: c.sessions, active: active, last_active: last, form: c.form }
}

/// Perform a shortcut action on a composer.
pub fn apply_shortcut(composer: &mut VietnameseComposer, action: ShortcutAction)
    ensures
        core_of(final(composer)@) == shortcut_model(core_of(old(composer)@), action),
        final(composer)@.valid(),
{
    match action {
        ShortcutAction::Toggle => {
            composer.toggle_method();
        },
        ShortcutAction::Cycle => {
            composer.cycle_method();
        },
    }
}

/// `source` turned into a key-down event carrying `text`.
pub open spec fn text_event_of(source: EventView, text: Seq<char>) -> EventView {
    EventView { down: true, payload: Some(PayloadView::Text(text)), ..source }
}

/// A key-down event carrying `text`, with the other fields of `source`.
pub fn make_text_event(source: &KeyEvent, text: &str) -> (r: KeyEvent)
    ensures
        r@ == text_event_of(source@, text@),
{
    let mut event = copy_event(source);
    event.set_seq(text.to_owned());
    event.down = true;
    event
}

/// The composer core and the event to send (if any) after one source event
/// for session `id`: a shortcut is acted upon (on key-down) and dropped; a
/// typed char goes through the composer, whose outcome drops it (buffered),
/// replaces it by a text event (composed or flushed text) or keeps it (pass
/// through); any other event is kept.
pub open spec fn event_step(c: ComposerCore, sc: ShortcutConfig, id: Seq<char>, e: EventView) -> (ComposerCore, Option<EventView>) {
    match shortcut_of(sc, e) {
        Some(a) => (if e.down { shortcut_model(c, a) } else { c }, None),
        None => match typed_char_of(e) {
            None => (c, Some(e)),
            Some(ch) => {
                let (sessions, out) = key_step(view_with(c), id, ch);
                let c2 = ComposerCore { sessions: sessions, ..c };
                match out {
                    Outcome::Consumed => (c2, None),
                    Outcome::Compose(t) => (c2, Some(text_event_of(e, t))),
                    Outcome::Flush(t) => (c2, Some(text_event_of(e, t))),
                    Outcome::PassThrough(_) => (c2, Some(e)),
                }
            },
        },
    }
}

/// The composer core and the events to send after a list of source events,
/// processed in order.
pub open spec fn events_model(c: ComposerCore, sc: ShortcutConfig, id: Seq<char>, es: Seq<EventView>) -> (ComposerCore, Seq<EventView>)
    decreases es.len(),
{
    if es.len() == 0 {
        (c, Seq::empty())
    } else {
        let (c1, out1) = events_model(c, sc, id, es.drop_last());
        let (c2, o) = event_step(c1, sc, id, es.last());
        (
            c2,
            match o {
                Some(x) => out1.push(x),
                None => out1,
            },
        )
    }
}

/// What to do with one source event.
enum DispatchOutcome {
    /// Drop it.
    Suppress,
    /// Replace it by a text event carrying this text.
    Replace(String),
    /// Keep it.
    Keep,
}

proof fn lemma_key_step_core(v: ComposerView, id: Seq<char>, ch: char)
    ensures
        key_step(view_with(core_of(v)), id, ch) == key_step(v, id, ch),
{
    assert(view_with(core_of(v)).buffer_of(id) == v.buffer_of(id));
}

/// Route one (non-shortcut) key event through the composer: a typed char is
/// processed for the session and its outcome decides the event's fate; any
/// other event is kept and the composer left unchanged.
fn dispatch_key_event(composer: &mut VietnameseComposer, session_id: &str, event: &KeyEvent) -> (r: DispatchOutcome)
    ensures
        match typed_char_of(event@) {
            None => r is Keep && final(composer)@ == old(composer)@,
            Some(ch) => {
                &&& core_of(final(composer)@) == (ComposerCore {
                    sessions: key_step(view_with(core_of(old(composer)@)), session_id@, ch).0,
                    ..core_of(old(composer)@)
                })
                &&& final(composer)@.valid()
                &&& match key_step(view_with(core_of(old(composer)@)), session_id@, ch).1 {
                    Outcome::Consumed => r is Suppress,
                    Outcome::Compose(t) => r matches DispatchOutcome::Replace(s) && s@ == t,
                    Outcome::Flush(t) => r matches DispatchOutcome::Replace(s) && s@ == t,
                    Outcome::PassThrough(_) => r is Keep,
                }
            },
        },
{
    let typed = match typed_char(event) {
        Some(c) => c,
        None => return DispatchOutcome::Keep,
    };
    proof {
        lemma_key_step_core(composer@, session_id@, typed);
    }
    match composer.process_key(session_id, typed) {
        ComposerResult::Consumed => DispatchOutcome::Suppress,
        ComposerResult::Compose(text) => DispatchOutcome::Replace(text),
        ComposerResult::Flush(text) => DispatchOutcome::Replace(text),
        ComposerResult::PassThrough(_) => DispatchOutcome::Keep,
    }
}

/// Route a list of key events through the shortcut matcher and the composer
/// with the given shortcut bindings (see [`events_model`]).
pub fn compose_key_events_with_config(
    composer: &mut VietnameseComposer,
    shortcuts: &ShortcutConfig,
    session_id: &str,
    events: Vec<KeyEvent>,
) -> (r: Vec<KeyEvent>)
    ensures
        core_of(final(composer)@) == events_model(core_of(old(composer)@), *shortcuts, session_id@, event_views(events@)).0,
        event_views(r@) == events_model(core_of(old(composer)@), *shortcuts, session_id@, event_views(events@)).1,
{
    let ghost c0 = core_of(composer@);
    let ghost es = event_views(events@);
    let mut out: Vec<KeyEvent> = Vec::new();
    let mut i: usize = 0;
    while i < events.len()
        invariant
            i <= events@.len(),
            es == event_views(events@),
            core_of(composer@) == events_model(c0, *shortcuts, session_id@, es.take(i as int)).0,
            event_views(out@) == events_model(c0, *shortcuts, session_id@, es.take(i as int)).1,
        decreases events@.len() - i,
    {
        let event = &events[i];
        let ghost before = core_of(composer@);
        let ghost out_before = event_views(out@);
        proof {
            assert(es.take(i as int + 1).drop_last() =~= es.take(i as int));
            assert(es[i as int] == event@);
            assert(es.take(i as int + 1).last() == event@);
        }
        match match_shortcut_with(shortcuts, event) {
            Some(action) => {
                if event.down {
                    apply_shortcut(composer, action);
                }
            },
            None => {
                match dispatch_key_event(composer, session_id, event) {
                    DispatchOutcome::Suppress => {},
                    DispatchOutcome::Replace(text) => {
                        let ev = make_text_event(event, text.as_str());
                        out.push(ev);
                        proof {
                            assert(event_views(out@) =~= out_before.push(ev@));
                        }
                    },
                    DispatchOutcome::Keep => {
                        let copy = copy_event(event);
                        out.push(copy);
                        proof {
                            assert(event_views(out@) =~= out_before.push(event@));
                        }
                    },
                }
            },
        }
        i += 1;
    }
    proof {
        assert(es.take(es.len() as int) =~= es);
    }
    out
}

/// Route a list of key events through the composer with the default shortcut
/// bindings.
pub fn compose_key_events_with(composer: &mut VietnameseComposer, session_id: &str, events: Vec<KeyEvent>) -> (r: Vec<KeyEvent>)
    ensures
        core_of(final(composer)@) == events_model(core_of(old(composer)@), default_shortcuts(), session_id@, event_views(events@)).0,
        event_views(r@) == events_model(core_of(old(composer)@), default_shortcuts(), session_id@, event_views(events@)).1,
{
    let shortcuts = ShortcutConfig::default();
    compose_key_events_with_config(composer, &shortcuts, session_id, events)
}

/// The text events that deliver flushed raw text: one key-down text event,
/// or none for empty text.
pub fn flushed_to_key_events(text: &str) -> (r: Vec<KeyEvent>)
    ensures
        text@.len() == 0 ==> r@.len() == 0,
        text@.len() > 0 ==> r@.len() == 1 && r@[0]@ == text_event_of(blank_event(), text@),
{
    if text.unicode_len() == 0 {
        Vec::new()
    } else {
        let mut event = KeyEvent::new();
        event.set_seq(text.to_owned());
        event.down = true;
        let mut v: Vec<KeyEvent> = Vec::new();
        v.push(event);
        v
    }
}

/// The host-owned state of the Vietnamese input feature: the feature gate,
/// the composer and the shortcut bindings.
pub struct InputState {
    /// The composer every session's keystrokes go through.
    pub composer: VietnameseComposer,
    /// The shortcut bindings.
    pub shortcuts: ShortcutConfig,
    /// Whether composition is enabled; the host routes key events through
    /// [`compose_key_events`] only while it is.
    pub enabled: bool,
}

impl InputState {
    /// The initial state: disabled, a fresh composer (composition off, no
    /// sessions) and the default shortcuts.
    pub fn new() -> (r: Self)
        ensures
            !r.enabled,
            r.shortcuts == default_shortcuts(),
            r.composer@.sessions == Map::<Seq<char>, SessionState>::empty(),
            r.composer@.active == InputMethod::Off,
            r.composer@.last_active == InputMethod::Telex,
            r.composer@.form == NormalizationForm::Nfc,
    {
        InputState { composer: VietnameseComposer::new(), shortcuts: ShortcutConfig::default(), enabled: false }
    }
}

/// The id of the session the host uses until per-session routing is wired.
pub fn default_session_id() -> (r: String)
    ensures
        r@ == DEFAULT_SESSION_ID@,
{
    DEFAULT_SESSION_ID.to_owned()
}

/// Whether Vietnamese input composition is enabled.
pub fn is_vietnamese_input_enabled(state: &InputState) -> (r: bool)
    ensures
        r == state.enabled,
{
    state.enabled
}

/// Enable or disable composition. Disabling clears the default session's
/// in-flight composition.
pub fn set_enabled(state: &mut InputState, enabled: bool)
    ensures
        final(state).enabled == enabled,
        final(state).shortcuts == old(state).shortcuts,
        enabled ==> final(state).composer@ == old(state).composer@,
        !enabled ==> final(state).composer@.sessions == old(state).composer@.sessions.remove(DEFAULT_SESSION_ID@),
        !enabled ==> final(state).composer@.active == old(state).composer@.active,
        !enabled ==> final(state).composer@.last_active == old(state).composer@.last_active,
        !enabled ==> final(state).composer@.form == old(state).composer@.form,
{
    state.enabled = enabled;
    if !enabled {
        state.composer.clear_session(DEFAULT_SESSION_ID);
    }
}

/// Select the active input method.
pub fn set_method(state: &mut InputState, method: InputMethod)
    ensures
        (final(state).composer@.active, final(state).composer@.last_active) == select_model(
            method,
            old(state).composer@.last_active,
        ),
        final(state).composer@.sessions == old(state).composer@.sessions,
        final(state).composer@.form == old(state).composer@.form,
        final(state).enabled == old(state).enabled,
        final(state).shortcuts == old(state).shortcuts,
{
    state.composer.set_method(method);
}

/// Set the normalization form applied to composed output.
pub fn set_normalization(state: &mut InputState, form: NormalizationForm)
    ensures
        final(state).composer@.form == form,
        final(state).composer@.sessions == old(state).composer@.sessions,
        final(state).composer@.active == old(state).composer@.active,
        final(state).composer@.last_active == old(state).composer@.last_active,
        final(state).enabled == old(state).enabled,
        final(state).shortcuts == old(state).shortcuts,
{
    state.composer.set_normalization(form);
}

/// The input method an identifier names, once trimmed of whitespace and
/// lowercased: `telex`, `vni`, `vni_windows` (also `vniwindows` and
/// `vni-windows`) or `off`.
pub open spec fn method_named(s: Seq<char>) -> Option<InputMethod> {
    let t = normalized_ident(s);
    if t == "telex"@ {
        Some(InputMethod::Telex)
    } else if t == "vni"@ {
        Some(InputMethod::Vni)
    } else if t == "vni_windows"@ || t == "vniwindows"@ || t == "vni-windows"@ {
        Some(InputMethod::VniWindows)
    } else if t == "off"@ {
        Some(InputMethod::Off)
    } else {
        None
    }
}

/// Parse a method identifier (see [`method_named`]); `None` when it is not
/// recognized.
pub fn parse_method(method: &str) -> (r: Option<InputMethod>)
    ensures
        r == method_named(method@),
{
    let t = ident_chars(method);
    if chars_eq(t.as_slice(), "telex") {
        Some(InputMethod::Telex)
    } else if chars_eq(t.as_slice(), "vni") {
        Some(InputMethod::Vni)
    } else if chars_eq(t.as_slice(), "vni_windows") || chars_eq(t.as_slice(), "vniwindows") || chars_eq(
        t.as_slice(),
        "vni-windows",
    ) {
        Some(InputMethod::VniWindows)
    } else if chars_eq(t.as_slice(), "off") {
        Some(InputMethod::Off)
    } else {
        None
    }
}

/// Select the active input method from an identifier: `true` if it was
/// recognized and applied; otherwise nothing changes.
pub fn set_method_str(state: &mut InputState, method: &str) -> (r: bool)
    ensures
        r == method_named(method@) is Some,
        r ==> (final(state).composer@.active, final(state).composer@.last_active) == select_model(
            method_named(method@)->0,
            old(state).composer@.last_active,
        ),
        !r ==> final(state).composer@ == old(state).composer@,
        final(state).composer@.sessions == old(state).composer@.sessions,
        final(state).composer@.form == old(state).composer@.form,
        final(state).enabled == old(state).enabled,
        final(state).shortcuts == old(state).shortcuts,
{
    match parse_method(method) {
        Some(m) => {
            set_method(state, m);
            true
        },
        None => false,
    }
}

/// The in-flight composed text of the default session, if any.
pub fn composition_preview(state: &InputState) -> (r: Option<String>)
    ensures
        match r {
            Some(s) => state.composer@.sessions.contains_key(DEFAULT_SESSION_ID@) && !crate::composer::is_blank(
                state.composer@.sessions[DEFAULT_SESSION_ID@].buffer,
            ) && s@ == state.composer@.sessions[DEFAULT_SESSION_ID@].buffer.current,
            None => !state.composer@.sessions.contains_key(DEFAULT_SESSION_ID@) || crate::composer::is_blank(
                state.composer@.sessions[DEFAULT_SESSION_ID@].buffer,
            ),
        },
{
    match state.composer.get_buffer_content(DEFAULT_SESSION_ID) {
        Some(s) => Some(s.to_owned()),
        None => None,
    }
}

/// The diagnostic dump of every session's composition state (see
/// [`VietnameseComposer::dump_buffer_state`]).
pub fn diagnostic_dump(state: &InputState) -> (r: String)
    ensures
        state.composer@.sessions.len() == 0 ==> r@ == crate::composer::dump_header(state.composer@)
            + "  (no active composition buffers)\n"@,
        state.composer@.sessions.len() > 0 ==> exists|order: Seq<Seq<char>>|
            crate::composer::sorted_ids(order) && order.to_set() == state.composer@.sessions.dom() && r@
                == crate::composer::dump_header(state.composer@) + crate::composer::dump_lines(
                state.composer@.sessions,
                order,
            ),
{
    state.composer.dump_buffer_state()
}

/// Flush a session's composition as raw text if it has been idle for at
/// least [`DEFAULT_TIMEOUT`].
pub fn flush_timed_out(state: &mut InputState, session_id: &str) -> (r: Option<String>)
    ensures
        exists|elapsed: u128|
            #[trigger] crate::composer::flushed_one(
                old(state).composer@.sessions,
                final(state).composer@.sessions,
                session_id@,
                elapsed,
                DEFAULT_TIMEOUT,
                crate::syllable::opt_chars(r),
            ),
        match r {
            Some(raw) => old(state).composer@.sessions.contains_key(session_id@) && !crate::composer::is_blank(
                old(state).composer@.sessions[session_id@].buffer,
            ) && old(state).composer@.sessions[session_id@].touched && raw@ == old(
                state,
            ).composer@.sessions[session_id@].buffer.raw && final(state).composer@.sessions == old(
                state,
            ).composer@.sessions.remove(session_id@),
            None => final(state).composer@.sessions == old(state).composer@.sessions,
        },
        core_of(final(state).composer@).active == old(state).composer@.active,
        final(state).enabled == old(state).enabled,
        final(state).shortcuts == old(state).shortcuts,
{
    state.composer.flush_if_timed_out(session_id, DEFAULT_TIMEOUT)
}

/// Flush a session's composition as raw text if it has been idle for at
/// least `timeout_nanos` nanoseconds.
pub fn flush_timed_out_with(state: &mut InputState, session_id: &str, timeout_nanos: u128) -> (r: Option<String>)
    ensures
        exists|elapsed: u128|
            #[trigger] crate::composer::flushed_one(
                old(state).composer@.sessions,
                final(state).composer@.sessions,
                session_id@,
                elapsed,
                timeout_nanos,
                crate::syllable::opt_chars(r),
            ),
        match r {
            Some(raw) => old(state).composer@.sessions.contains_key(session_id@) && !crate::composer::is_blank(
                old(state).composer@.sessions[session_id@].buffer,
            ) && old(state).composer@.sessions[session_id@].touched && raw@ == old(
                state,
            ).composer@.sessions[session_id@].buffer.raw && final(state).composer@.sessions == old(
                state,
            ).composer@.sessions.remove(session_id@),
            None => final(state).composer@.sessions == old(state).composer@.sessions && (timeout_nanos == 0 ==> !(old(
                state,
            ).composer@.sessions.contains_key(session_id@) && !crate::composer::is_blank(
                old(state).composer@.sessions[session_id@].buffer,
            ) && old(state).composer@.sessions[session_id@].touched)),
        },
        core_of(final(state).composer@).active == old(state).composer@.active,
        final(state).enabled == old(state).enabled,
        final(state).shortcuts == old(state).shortcuts,
{
    state.composer.flush_if_timed_out(session_id, timeout_nanos)
}

/// Flush every session idle for at least [`DEFAULT_TIMEOUT`], returning the
/// (session id, raw text) pairs to deliver.
pub fn flush_all_timed_out(state: &mut InputState) -> (r: Vec<(String, String)>)
    ensures
        exists|idle: Seq<(Seq<char>, u128)>|
            crate::composer::covers(old(state).composer@.sessions, idle) && #[trigger] crate::composer::flushed_stale(
                old(state).composer@.sessions,
                final(state).composer@.sessions,
                crate::composer::pair_views(r@),
                idle,
                DEFAULT_TIMEOUT,
            ),
        crate::composer::flushed_from(old(state).composer@.sessions, crate::composer::pair_views(r@)),
        final(state).composer@.sessions == old(state).composer@.sessions.filter_keys(
            |k: Seq<char>| !crate::composer::listed(crate::composer::pair_views(r@), k),
        ),
        final(state).enabled == old(state).enabled,
        final(state).shortcuts == old(state).shortcuts,
{
    state.composer.flush_timed_out_sessions(DEFAULT_TIMEOUT)
}

/// Flush every session's in-flight composition as raw text (application
/// switch), returning the (session id, raw text) pairs to deliver.
pub fn flush_on_app_switch(state: &mut InputState) -> (r: Vec<(String, String)>)
    ensures
        crate::composer::flushed_from(old(state).composer@.sessions, crate::composer::pair_views(r@)),
        forall|k: Seq<char>|
            #![trigger old(state).composer@.sessions[k]]
            old(state).composer@.sessions.contains_key(k) && !crate::composer::is_blank(
                old(state).composer@.sessions[k].buffer,
            ) ==> crate::composer::listed(crate::composer::pair_views(r@), k),
        final(state).composer@.sessions == Map::<Seq<char>, SessionState>::empty(),
        final(state).enabled == old(state).enabled,
        final(state).shortcuts == old(state).shortcuts,
{
    state.composer.flush_all_sessions()
}

/// The composer's estimated memory use in bytes (see
/// [`VietnameseComposer::estimated_memory_bytes`]).
pub fn composer_memory_bytes(state: &InputState) -> (r: usize)
    ensures
        exists|cs: Seq<crate::composer::BufferCapacities>|
            #[trigger] crate::composer::capacity_total(cs) == r && cs.len() == state.composer@.sessions.len()
                && state.composer.capacities_fit(cs),
        r >= vstd::layout::size_of::<VietnameseComposer>(),
        state.composer@.sessions.len() == 0 ==> r == vstd::layout::size_of::<VietnameseComposer>(),
{
    state.composer.estimated_memory_bytes()
}

/// Whether the composer's estimated memory exceeds its budget.
pub fn is_composer_over_memory_limit(state: &InputState) -> (r: bool)
    ensures
        exists|cs: Seq<crate::composer::BufferCapacities>|
            #[trigger] state.composer.capacities_fit(cs) && cs.len() == state.composer@.sessions.len() && r == (
            crate::composer::capacity_total(cs) > crate::composer::MEMORY_LIMIT_BYTES),
        state.composer@.sessions.len() == 0 ==> r == (vstd::layout::size_of::<VietnameseComposer>()
            > crate::composer::MEMORY_LIMIT_BYTES),
{
    state.composer.is_over_memory_limit()
}

/// Enforce the composer's memory budget, returning the (session id, raw
/// text) pairs flushed to get back under it (none when within budget).
pub fn enforce_memory_limit(state: &mut InputState) -> (r: Vec<(String, String)>)
    ensures
        exists|cs: Seq<crate::composer::BufferCapacities>|
            #[trigger] old(state).composer.capacities_fit(cs) && cs.len() == old(state).composer@.sessions.len()
                && (crate::composer::capacity_total(cs) <= crate::composer::MEMORY_LIMIT_BYTES ==> r@.len() == 0
                && final(state).composer@.sessions == old(state).composer@.sessions
                && !final(state).composer@.memory_warning) && (crate::composer::capacity_total(cs)
                > crate::composer::MEMORY_LIMIT_BYTES ==> crate::composer::memory_flushed(
                old(state).composer@,
                final(state).composer@,
                crate::composer::pair_views(r@),
            )),
        final(state).composer@.active == old(state).composer@.active,
        final(state).composer@.last_active == old(state).composer@.last_active,
        final(state).composer@.form == old(state).composer@.form,
        final(state).composer@.slow_keystrokes == old(state).composer@.slow_keystrokes,
        final(state).enabled == old(state).enabled,
        final(state).shortcuts == old(state).shortcuts,
        final(state).composer@.valid(),
{
    state.composer.enforce_memory_limit()
}

/// Rebind the toggle shortcut.
pub fn set_toggle_shortcut(state: &mut InputState, chord: Chord)
    ensures
        final(state).shortcuts == (ShortcutConfig { toggle: chord, ..old(state).shortcuts }),
        final(state).composer@ == old(state).composer@,
        final(state).enabled == old(state).enabled,
{
    state.shortcuts.toggle = chord;
}

/// Rebind the cycle shortcut.
pub fn set_cycle_shortcut(state: &mut InputState, chord: Chord)
    ensures
        final(state).shortcuts == (ShortcutConfig { cycle: chord, ..old(state).shortcuts }),
        final(state).composer@ == old(state).composer@,
        final(state).enabled == old(state).enabled,
{
    state.shortcuts.cycle = chord;
}

/// The toggle shortcut.
pub fn toggle_shortcut(state: &InputState) -> (r: Chord)
    ensures
        r == state.shortcuts.toggle,
{
    state.shortcuts.toggle
}

/// The cycle shortcut.
pub fn cycle_shortcut(state: &InputState) -> (r: Chord)
    ensures
        r == state.shortcuts.cycle,
{
    state.shortcuts.cycle
}

/// If the event is a configured shortcut, perform its action (on key-down
/// only) and return it; the caller then drops the event. `None` for any
/// other event, which changes nothing.
pub fn check_and_handle_shortcut(state: &mut InputState, event: &KeyEvent) -> (r: Option<ShortcutAction>)
    ensures
        r == shortcut_of(old(state).shortcuts, event@),
        core_of(final(state).composer@) == match r {
            Some(a) => if event@.down {
                shortcut_model(core_of(old(state).composer@), a)
            } else {
                core_of(old(state).composer@)
            },
            None => core_of(old(state).composer@),
        },
        final(state).enabled == old(state).enabled,
        final(state).shortcuts == old(state).shortcuts,
{
    let action = match match_shortcut_with(&state.shortcuts, event) {
        Some(a) => a,
        None => return None,
    };
    if event.down {
        apply_shortcut(&mut state.composer, action);
    }
    Some(action)
}

/// Route a list of key events through the shortcut matcher and the composer
/// for a session (see [`events_model`]), with the state's bindings.
pub fn compose_key_events(state: &mut InputState, session_id: &str, events: Vec<KeyEvent>) -> (r: Vec<KeyEvent>)
    ensures
        core_of(final(state).composer@) == events_model(
            core_of(old(state).composer@),
            old(state).shortcuts,
            session_id@,
            event_views(events@),
        ).0,
        event_views(r@) == events_model(
            core_of(old(state).composer@),
            old(state).shortcuts,
            session_id@,
            event_views(events@),
        ).1,
        final(state).enabled == old(state).enabled,
        final(state).shortcuts == old(state).shortcuts,
{
    let shortcuts = state.shortcuts;
    compose_key_events_with_config(&mut state.composer, &shortcuts, session_id, events)
}

} // verus!
