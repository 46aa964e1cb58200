//! The key events the composer reads and produces.
//!
//! A [`KeyEvent`] holds, as plain values, what the composition pipeline
//! reads of a keyboard event: whether it is a key-down, its modifiers, its
//! keyboard mode and its payload (a control key, a character code, or a text
//! sequence). The host converts its own event representation to and from it.

use vstd::prelude::*;

use crate::text::push_char;

verus! {

/// Control and modifier keys.
#[derive(Debug, Clone, Copy, PartialEq, Eq, Structural)]
pub enum ControlKey {
    Control,
    RControl,
    Shift,
    RShift,
    Alt,
    RAlt,
    Meta,
    RWin,
    CapsLock,
    NumLock,
    /// Any other control key.
    Other,
}

/// How the host translated the physical key press.
#[derive(Debug, Clone, Copy, PartialEq, Eq, Structural)]
pub enum KeyboardMode {
    Legacy,
    Mapped,
    Translate,
    Auto,
}

/// What a key event carries.
#[derive(Debug, Clone, PartialEq, Eq)]
pub enum KeyPayload {
    /// A control key.
    ControlKey(ControlKey),
    /// A character (legacy mode) or platform key code (map mode).
    Chr(u32),
    /// A Unicode code point.
    Unicode(u32),
    /// Literal text.
    Text(String),
}

/// A keyboard event.
#[derive(Debug, Clone, PartialEq, Eq)]
pub struct KeyEvent {
    /// Key-down (`true`) or key-up (`false`).
    pub down: bool,
    /// A press (down and up at once).
    pub press: bool,
    /// The payload, if any.
    pub union: Option<KeyPayload>,
    /// Held modifiers.
    pub modifiers: Vec<ControlKey>,
    /// Keyboard mode.
    pub mode: KeyboardMode,
}

/// A payload as a value.
pub enum PayloadView {
    ControlKey(ControlKey),
    Chr(u32),
    Unicode(u32),
    Text(Seq<char>),
}

/// A key event as a value.
pub struct EventView {
    pub down: bool,
    pub press: bool,
    pub payload: Option<PayloadView>,
    pub modifiers: Seq<ControlKey>,
    pub mode: KeyboardMode,
}

/// The value of a payload.
pub open spec fn payload_view(p: KeyPayload) -> PayloadView {
    match p {
        KeyPayload::ControlKey(k) => PayloadView::ControlKey(k),
        KeyPayload::Chr(c) => PayloadView::Chr(c),
        KeyPayload::Unicode(u) => PayloadView::Unicode(u),
        KeyPayload::Text(s) => PayloadView::Text(s@),
    }
}

impl View for KeyEvent {
    type V = EventView;

    open spec fn view(&self) -> EventView {
        EventView {
            down: self.down,
            press: self.press,
            payload: match self.union {
                Some(p) => Some(payload_view(p)),
                None => None,
            },
            modifiers: self.modifiers@,
            mode: self.mode,
        }
    }
}

/// An event with no payload and no modifiers, key-up, in legacy mode.
pub open spec fn blank_event() -> EventView {
    EventView { down: false, press: false, payload: None, modifiers: Seq::empty(), mode: KeyboardMode::Legacy }
}

/// The text carried by an event, or the empty string when it carries none.
pub open spec fn text_of(e: EventView) -> Seq<char> {
    match e.payload {
        Some(PayloadView::Text(s)) => s,
        _ => Seq::empty(),
    }
}

/// The views of a list of events.
pub open spec fn event_views(es: Seq<KeyEvent>) -> Seq<EventView> {
    es.map_values(|e: KeyEvent| e@)
}

/// A copy of `e`.
pub fn copy_event(e: &KeyEvent) -> (r: KeyEvent)
    ensures
        r@ == e@,
{
    let union = match &e.union {
        None => None,
        Some(KeyPayload::ControlKey(k)) => Some(KeyPayload::ControlKey(*k)),
        Some(KeyPayload::Chr(c)) => Some(KeyPayload::Chr(*c)),
        Some(KeyPayload::Unicode(u)) => Some(KeyPayload::Unicode(*u)),
        Some(KeyPayload::Text(s)) => Some(KeyPayload::Text(s.clone())),
    };
    let mut modifiers: Vec<ControlKey> = Vec::new();
    let mut i: usize = 0;
    while i < e.modifiers.len()
        invariant
            i <= e.modifiers@.len(),
            modifiers@ == e.modifiers@.take(i as int),
        decreases e.modifiers@.len() - i,
    {
        modifiers.push(e.modifiers[i]);
        assert(e.modifiers@.take(i as int + 1) == e.modifiers@.take(i as int).push(e.modifiers@[i as int]));
        i += 1;
    }
    assert(e.modifiers@.take(e.modifiers@.len() as int) =~= e.modifiers@);
    KeyEvent { down: e.down, press: e.press, union, modifiers, mode: e.mode }
}

/// The text payload of an event, or the empty string.
pub open spec fn seq_of(e: KeyEvent) -> Seq<char> {
    match e.union {
        Some(KeyPayload::Text(s)) => s@,
        _ => Seq::empty(),
    }
}

impl KeyEvent {
    /// An event with no payload, no modifiers, key-up, legacy mode.
    pub fn new() -> (r: Self)
        ensures
            !r.down,
            !r.press,
            r.union is None,
            r.modifiers@.len() == 0,
            r.mode == KeyboardMode::Legacy,
            r@ == blank_event(),
    {
        KeyEvent { down: false, press: false, union: None, modifiers: Vec::new(), mode: KeyboardMode::Legacy }
    }

    /// The text payload, or `""` when the payload is not text.
    pub fn seq(&self) -> (r: &str)
        ensures
            r@ == seq_of(*self),
    {
        match &self.union {
            Some(KeyPayload::Text(s)) => s.as_str(),
            _ => {
                let r = "";
                proof {
                    reveal_strlit("");
                }
                r
            },
        }
    }

    /// Make the payload the text `s`.
    pub fn set_seq(&mut self, s: String)
        ensures
            final(self).union == Some(KeyPayload::Text(s)),
            final(self).down == old(self).down,
            final(self).press == old(self).press,
            final(self).modifiers == old(self).modifiers,
            final(self).mode == old(self).mode,
    {
        self.union = Some(KeyPayload::Text(s));
    }

    /// Make the payload the character code `c`.
    pub fn set_chr(&mut self, c: u32)
        ensures
            final(self).union == Some(KeyPayload::Chr(c)),
            final(self).down == old(self).down,
            final(self).press == old(self).press,
            final(self).modifiers == old(self).modifiers,
            final(self).mode == old(self).mode,
    {
        self.union = Some(KeyPayload::Chr(c));
    }

    /// Make the payload the control key `k`.
    pub fn set_control_key(&mut self, k: ControlKey)
        ensures
            final(self).union == Some(KeyPayload::ControlKey(k)),
            final(self).down == old(self).down,
            final(self).press == old(self).press,
            final(self).modifiers == old(self).modifiers,
            final(self).mode == old(self).mode,
    {
        self.union = Some(KeyPayload::ControlKey(k));
    }
}

/// The event carrying one char as text, key-up, no modifiers, legacy mode:
/// what the composer hands back for a key it lets through.
pub open spec fn is_passthrough_of(e: KeyEvent, key: char) -> bool {
    &&& seq_of(e) == seq![key]
    &&& e.union matches Some(KeyPayload::Text(_))
    &&& !e.down
    &&& !e.press
    &&& e.modifiers@.len() == 0
    &&& e.mode == KeyboardMode::Legacy
}

/// Build the text event carrying a single char, used for pass-through
/// results.
pub fn passthrough_event(key: char) -> (r: KeyEvent)
    ensures
        is_passthrough_of(r, key),
{
    let mut event = KeyEvent::new();
    let mut s = String::new();
    push_char(&mut s, key);
    event.set_seq(s);
    event
}

} // verus!
