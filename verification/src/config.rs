//! Configuration schema and persistence for the Vietnamese input composer.
//!
//! [`VietnameseInputConfig`] holds the composer's user-facing settings: the
//! feature gate, the default input method, the normalization form, the
//! toggle/cycle shortcuts, overlay visibility, an optional custom-rules
//! directory and the idle-flush timeout. Each field is persisted as a string
//! under its own key of a key/value [`OptionStore`] (see [`keys`]); every
//! field falls back to its default when its stored value is absent or
//! unparseable, and saving then loading through the same store gives back
//! the same configuration.

pub mod keys;

use vstd::prelude::*;
use vstd::string::StringExecFns;

use crate::composer::pair_views;
use crate::integration::{
    default_shortcuts, method_named, parse_method, set_cycle_shortcut, set_enabled, set_method, set_normalization,
    set_toggle_shortcut, Chord, InputState,
};
use crate::text::{
    ascii_lowercase, chars_eq, chars_of, ident_chars, lower_seq, normalized_ident, push_char, push_decimal,
    spec_ascii_lower, spec_is_ascii_alpha, spec_is_ascii_digit, spec_is_whitespace, trim, trimmed_chars,
    first_in, last_in, lemma_first_in, lemma_last_in, lemma_first_in_agree, lemma_last_in_agree, non_ws_pred,
};
use crate::unicode_norm::NormalizationForm;
use crate::InputMethod;

verus! {

/// A keyboard shortcut binding.
pub type KeyShortcut = Chord;

/// Default idle-flush timeout in milliseconds.
pub const DEFAULT_TIMEOUT_MS: u64 = 500;

/// The persisted boolean a string spells, once trimmed and lowercased:
/// `y`, `yes`, `true`, `1`, `on` are true; `n`, `no`, `false`, `0`, `off`
/// are false; anything else gives `default`.
pub open spec fn bool_named(raw: Seq<char>, default: bool) -> bool {
    let t = normalized_ident(raw);
    if t == "y"@ || t == "yes"@ || t == "true"@ || t == "1"@ || t == "on"@ {
        true
    } else if t == "n"@ || t == "no"@ || t == "false"@ || t == "0"@ || t == "off"@ {
        false
    } else {
        default
    }
}

/// Parse a persisted boolean (see [`bool_named`]).
pub fn parse_bool(raw: &str, default: bool) -> (r: bool)
    ensures
        r == bool_named(raw@, default),
{
    let t = ident_chars(raw);
    let t = t.as_slice();
    if chars_eq(t, "y") || chars_eq(t, "yes") || chars_eq(t, "true") || chars_eq(t, "1") || chars_eq(t, "on") {
        true
    } else if chars_eq(t, "n") || chars_eq(t, "no") || chars_eq(t, "false") || chars_eq(t, "0") || chars_eq(t, "off") {
        false
    } else {
        default
    }
}

/// How a boolean is persisted: `"Y"` for true, empty for false.
pub fn bool_to_str(value: bool) -> (r: &'static str)
    ensures
        r@ == (if value { "Y"@ } else { ""@ }),
{
    if value {
        "Y"
    } else {
        ""
    }
}

/// The canonical identifier of an input method.
pub open spec fn method_ident(m: InputMethod) -> Seq<char> {
    match m {
        InputMethod::Telex => "telex"@,
        InputMethod::Vni => "vni"@,
        InputMethod::VniWindows => "vni_windows"@,
        InputMethod::Off => "off"@,
    }
}

/// The canonical identifier of an input method, as accepted by
/// [`parse_method`].
pub fn method_to_str(method: InputMethod) -> (r: &'static str)
    ensures
        r@ == method_ident(method),
{
    match method {
        InputMethod::Telex => "telex",
        InputMethod::Vni => "vni",
        InputMethod::VniWindows => "vni_windows",
        InputMethod::Off => "off",
    }
}

/// The normalization form an identifier names once trimmed and lowercased
/// (`nfc` or `nfd`).
pub open spec fn normalization_named(raw: Seq<char>) -> Option<NormalizationForm> {
    let t = normalized_ident(raw);
    if t == "nfc"@ {
        Some(NormalizationForm::Nfc)
    } else if t == "nfd"@ {
        Some(NormalizationForm::Nfd)
    } else {
        None
    }
}

/// Parse a persisted normalization identifier.
pub fn parse_normalization(raw: &str) -> (r: Option<NormalizationForm>)
    ensures
        r == normalization_named(raw@),
{
    let t = ident_chars(raw);
    if chars_eq(t.as_slice(), "nfc") {
        Some(NormalizationForm::Nfc)
    } else if chars_eq(t.as_slice(), "nfd") {
        Some(NormalizationForm::Nfd)
    } else {
        None
    }
}

/// The canonical identifier of a normalization form.
pub open spec fn normalization_ident(f: NormalizationForm) -> Seq<char> {
    match f {
        NormalizationForm::Nfc => "nfc"@,
        NormalizationForm::Nfd => "nfd"@,
    }
}

/// The canonical identifier of a normalization form.
pub fn normalization_to_str(form: NormalizationForm) -> (r: &'static str)
    ensures
        r@ == normalization_ident(form),
{
    match form {
        NormalizationForm::Nfc => "nfc",
        NormalizationForm::Nfd => "nfd",
    }
}

/// `word` followed by `+` when `on`, or nothing.
pub open spec fn part(on: bool, word: Seq<char>) -> Seq<char> {
    if on {
        word.push('+')
    } else {
        Seq::empty()
    }
}

/// A chord as text: its modifiers in the fixed order ctrl, shift, alt, meta,
/// then its key, joined by `+` (e.g. `ctrl+shift+v`).
pub open spec fn chord_text(c: Chord) -> Seq<char> {
    part(c.ctrl, "ctrl"@) + part(c.shift, "shift"@) + part(c.alt, "alt"@) + part(c.meta, "meta"@) + seq![c.key]
}

/// Serialize a chord (see [`chord_text`]).
pub fn chord_to_string(chord: &Chord) -> (r: String)
    ensures
        r@ == chord_text(*chord),
{
    let mut s = String::new();
    if chord.ctrl {
        s.append("ctrl");
        push_char(&mut s, '+');
    }
    let ghost s1 = s@;
    if chord.shift {
        s.append("shift");
        push_char(&mut s, '+');
    }
    let ghost s2 = s@;
    if chord.alt {
        s.append("alt");
        push_char(&mut s, '+');
    }
    let ghost s3 = s@;
    if chord.meta {
        s.append("meta");
        push_char(&mut s, '+');
    }
    let ghost s4 = s@;
    push_char(&mut s, chord.key);
    proof {
        assert(s1 =~= part(chord.ctrl, "ctrl"@));
        assert(s2 =~= s1 + part(chord.shift, "shift"@));
        assert(s3 =~= s2 + part(chord.alt, "alt"@));
        assert(s4 =~= s3 + part(chord.meta, "meta"@));
        assert(s@ =~= chord_text(*chord));
    }
    s
}

/// The `+`-separated pieces of `s`, as `str::split('+')` yields them (an
/// empty string is one empty piece).
pub open spec fn split_plus(s: Seq<char>) -> Seq<Seq<char>>
    decreases s.len(),
{
    if s.len() == 0 {
        seq![Seq::empty()]
    } else {
        let init = split_plus(s.drop_last());
        if s.last() == '+' {
            init.push(Seq::empty())
        } else {
            init.update(init.len() - 1, init.last().push(s.last()))
        }
    }
}

proof fn lemma_split_nonempty(s: Seq<char>)
    ensures
        split_plus(s).len() > 0,
    decreases s.len(),
{
    if s.len() > 0 {
        lemma_split_nonempty(s.drop_last());
    }
}

/// The state of reading a chord's tokens.
pub struct ChordScan {
    pub ctrl: bool,
    pub shift: bool,
    pub alt: bool,
    pub meta: bool,
    pub key: Option<char>,
    pub failed: bool,
}

/// Nothing read yet.
pub open spec fn scan_start() -> ChordScan {
    ChordScan { ctrl: false, shift: false, alt: false, meta: false, key: None, failed: false }
}

/// Reading one token, trimmed and lowercased: empty tokens are skipped,
/// modifier names (`ctrl`/`control`, `shift`, `alt`/`option`,
/// `meta`/`cmd`/`command`/`win`/`super`) set their flag, a single char is the
/// trigger key (a second one fails), and anything else fails.
pub open spec fn scan_token(st: ChordScan, tok: Seq<char>) -> ChordScan {
    let t = normalized_ident(tok);
    if st.failed || t.len() == 0 {
        st
    } else if t == "ctrl"@ || t == "control"@ {
        ChordScan { ctrl: true, ..st }
    } else if t == "shift"@ {
        ChordScan { shift: true, ..st }
    } else if t == "alt"@ || t == "option"@ {
        ChordScan { alt: true, ..st }
    } else if t == "meta"@ || t == "cmd"@ || t == "command"@ || t == "win"@ || t == "super"@ {
        ChordScan { meta: true, ..st }
    } else if t.len() == 1 && st.key is None {
        ChordScan { key: Some(t[0]), ..st }
    } else {
        ChordScan { failed: true, ..st }
    }
}

/// Reading a list of tokens in order.
pub open spec fn scan_tokens(st: ChordScan, toks: Seq<Seq<char>>) -> ChordScan
    decreases toks.len(),
{
    if toks.len() == 0 {
        st
    } else {
        scan_token(scan_tokens(st, toks.drop_last()), toks.last())
    }
}

/// The chord a string spells once trimmed: its `+`-separated tokens read in
/// order (see [`scan_token`]); `None` when it is empty, a token fails, or no
/// trigger key was given.
pub open spec fn chord_named(raw: Seq<char>) -> Option<Chord> {
    let t = trim(raw);
    if t.len() == 0 {
        None
    } else {
        let st = scan_tokens(scan_start(), split_plus(t));
        if st.failed {
            None
        } else {
            match st.key {
                Some(k) => Some(
                    Chord { ctrl: st.ctrl, shift: st.shift, alt: st.alt, meta: st.meta, key: spec_ascii_lower(k) },
                ),
                None => None,
            }
        }
    }
}

/// A text that starts and ends with a non-whitespace char is its own trim.
proof fn lemma_trim_keeps(w: Seq<char>)
    requires
        w.len() > 0,
        !spec_is_whitespace(w[0]),
        !spec_is_whitespace(w[w.len() - 1]),
    ensures
        trim(w) == w,
{
    assert(crate::text::non_ws_pred()(w[0]));
    assert(crate::text::non_ws_pred()(w[w.len() - 1]));
    assert(w.subrange(0, w.len() as int) =~= w);
}

/// A text without `+` is a single piece.
proof fn lemma_split_no_plus(w: Seq<char>)
    requires
        forall|i: int| 0 <= i < w.len() ==> #[trigger] w[i] != '+',
    ensures
        split_plus(w) == seq![w],
    decreases w.len(),
{
    if w.len() > 0 {
        let init = w.drop_last();
        assert forall|i: int| 0 <= i < init.len() implies #[trigger] init[i] != '+' by {
            assert(init[i] == w[i]);
        }
        lemma_split_no_plus(init);
        assert(w.last() == w[w.len() - 1]);
        assert(init.push(w.last()) =~= w);
        assert(split_plus(w) =~= seq![w]);
    } else {
        assert(w =~= Seq::<char>::empty());
    }
}

/// The names a chord may use for each modifier: `ctrl`/`control`, `shift`,
/// `alt`/`option`, and `meta`/`cmd`/`command`/`win`/`super`.
pub open spec fn ctrl_name(w: Seq<char>) -> bool {
    w == "ctrl"@ || w == "control"@
}

/// See [`ctrl_name`].
pub open spec fn alt_name(w: Seq<char>) -> bool {
    w == "alt"@ || w == "option"@
}

/// See [`ctrl_name`].
pub open spec fn meta_name(w: Seq<char>) -> bool {
    w == "meta"@ || w == "cmd"@ || w == "command"@ || w == "win"@ || w == "super"@
}

/// Every documented modifier name parses, and all names of one modifier
/// parse alike: the name, a `+` and a letter key give the chord with just
/// that modifier set and that key (lowercased). So `cmd`, `command`, `win`
/// and `super` each set meta exactly as `meta` does.
pub proof fn lemma_modifier_names_parse(name: Seq<char>, c: char)
    requires
        ctrl_name(name) || name == "shift"@ || alt_name(name) || meta_name(name),
        spec_is_ascii_alpha(c),
    ensures
        chord_named(name + seq!['+', c]) == Some(
            Chord {
                ctrl: ctrl_name(name),
                shift: name == "shift"@,
                alt: alt_name(name),
                meta: meta_name(name),
                key: spec_ascii_lower(c),
            },
        ),
{
    reveal_strlit("meta");
    reveal_strlit("cmd");
    reveal_strlit("command");
    reveal_strlit("win");
    reveal_strlit("super");
    reveal_strlit("ctrl");
    reveal_strlit("control");
    reveal_strlit("shift");
    reveal_strlit("alt");
    reveal_strlit("option");
    let x = name + seq!['+', c];
    let n = x.len();
    assert(x[0] == name[0]);
    assert(x[n - 1] == c);
    lemma_trim_keeps(x);
    // The pieces: the name, then the key.
    assert forall|i: int| 0 <= i < name.len() implies #[trigger] name[i] != '+' && !spec_is_whitespace(name[i])
        && 'a' <= name[i] <= 'z' by {}
    lemma_split_no_plus(name);
    lemma_split_no_plus(seq![c]);
    assert(x.drop_last() =~= name.push('+'));
    assert(name.push('+').drop_last() =~= name);
    assert(split_plus(name.push('+')) =~= seq![name, Seq::<char>::empty()]);
    assert(split_plus(x) =~= seq![name, seq![c]]);
    // Reading the pieces.
    lemma_trim_keeps(name);
    lemma_trim_keeps(seq![c]);
    assert(lower_seq(name) =~= name);
    assert(lower_seq(seq![c]) =~= seq![spec_ascii_lower(c)]);
    let st1 = scan_token(scan_start(), name);
    assert(st1 == ChordScan {
        ctrl: ctrl_name(name),
        shift: name == "shift"@,
        alt: alt_name(name),
        meta: meta_name(name),
        ..scan_start()
    });
    let toks = seq![name, seq![c]];
    assert(toks.drop_last() =~= seq![name]);
    assert(seq![name].drop_last() =~= Seq::<Seq<char>>::empty());
    assert(scan_tokens(scan_start(), Seq::<Seq<char>>::empty()) == scan_start());
    assert(seq![name].last() == name);
    assert(scan_tokens(scan_start(), seq![name]) == st1);
    assert(toks.last() == seq![c]);
    assert(scan_tokens(scan_start(), toks) == ChordScan { key: Some(spec_ascii_lower(c)), ..st1 });
}

/// Lowercasing (ASCII) commutes with trimming.
proof fn lemma_trim_lower(s: Seq<char>)
    ensures
        trim(lower_seq(s)) == lower_seq(trim(s)),
{
    let l = lower_seq(s);
    let n = s.len() as int;
    assert forall|j: int| 0 <= j < n implies non_ws_pred()(#[trigger] l[j]) == non_ws_pred()(s[j]) by {}
    lemma_first_in_agree(l, s, 0, n, non_ws_pred());
    lemma_last_in_agree(l, s, n, non_ws_pred());
    let lo = first_in(s, 0, n, non_ws_pred());
    let hi = last_in(s, n, non_ws_pred()) + 1;
    lemma_first_in(s, 0, n, non_ws_pred());
    lemma_last_in(s, n, non_ws_pred());
    if lo < n {
        assert(non_ws_pred()(s[lo]));
        assert(lo < hi) by {
            if hi - 1 < lo {
                assert(!non_ws_pred()(s[lo]));
            }
        }
        assert(l.subrange(lo, hi) =~= lower_seq(s.subrange(lo, hi)));
    } else {
        assert(lower_seq(Seq::<char>::empty()) =~= Seq::<char>::empty());
    }
}

/// Lowercasing (ASCII) commutes with splitting on `+`.
proof fn lemma_split_lower(s: Seq<char>)
    ensures
        split_plus(lower_seq(s)) == split_plus(s).map_values(|w: Seq<char>| lower_seq(w)),
    decreases s.len(),
{
    let f = |w: Seq<char>| lower_seq(w);
    if s.len() == 0 {
        assert(lower_seq(s) =~= Seq::<char>::empty());
        assert(lower_seq(Seq::<char>::empty()) =~= Seq::<char>::empty());
        assert(split_plus(s).map_values(f) =~= seq![Seq::<char>::empty()]);
    } else {
        let init = s.drop_last();
        lemma_split_lower(init);
        lemma_split_nonempty(init);
        let l = lower_seq(s);
        assert(l.drop_last() =~= lower_seq(init));
        assert(l.last() == spec_ascii_lower(s.last()));
        let ps = split_plus(init);
        if s.last() == '+' {
            assert(lower_seq(Seq::<char>::empty()) =~= Seq::<char>::empty());
            assert(split_plus(s).map_values(f) =~= ps.map_values(f).push(Seq::<char>::empty()));
        } else {
            assert(lower_seq(ps.last().push(s.last())) =~= lower_seq(ps.last()).push(spec_ascii_lower(s.last())));
            assert(split_plus(s).map_values(f) =~= ps.map_values(f).update(
                ps.len() - 1,
                lower_seq(ps.last()).push(spec_ascii_lower(s.last())),
            ));
        }
    }
}

/// Reading a token ignores ASCII case.
proof fn lemma_scan_token_lower(st: ChordScan, tok: Seq<char>)
    ensures
        scan_token(st, lower_seq(tok)) == scan_token(st, tok),
{
    lemma_trim_lower(tok);
    let t = trim(tok);
    assert(lower_seq(lower_seq(t)) =~= lower_seq(t));
}

/// Reading tokens ignores ASCII case.
proof fn lemma_scan_tokens_lower(st: ChordScan, toks: Seq<Seq<char>>)
    ensures
        scan_tokens(st, toks.map_values(|w: Seq<char>| lower_seq(w))) == scan_tokens(st, toks),
    decreases toks.len(),
{
    let f = |w: Seq<char>| lower_seq(w);
    if toks.len() > 0 {
        let init = toks.drop_last();
        lemma_scan_tokens_lower(st, init);
        assert(toks.map_values(f).drop_last() =~= init.map_values(f));
        lemma_scan_token_lower(scan_tokens(st, init), toks.last());
    }
}

/// Chord names ignore ASCII case: a chord string reads as the same chord as
/// its lowercase form (`Ctrl+Shift+V` is `ctrl+shift+v`).
pub proof fn lemma_chord_ignores_case(raw: Seq<char>)
    ensures
        chord_named(lower_seq(raw)) == chord_named(raw),
{
    lemma_trim_lower(raw);
    let t = trim(raw);
    lemma_split_lower(t);
    lemma_scan_tokens_lower(scan_start(), split_plus(t));
}

fn scan_one(st: &mut ChordScan, tok: &Vec<char>)
    ensures
        *final(st) == scan_token(*old(st), tok@),
{
    let t0 = trimmed_chars(tok.as_slice());
    let t = ascii_lowercase(t0.as_slice());
    let t = t.as_slice();
    if st.failed || t.len() == 0 {
        return;
    }
    if chars_eq(t, "ctrl") || chars_eq(t, "control") {
        st.ctrl = true;
    } else if chars_eq(t, "shift") {
        st.shift = true;
    } else if chars_eq(t, "alt") || chars_eq(t, "option") {
        st.alt = true;
    } else if chars_eq(t, "meta") || chars_eq(t, "cmd") || chars_eq(t, "command") || chars_eq(t, "win") || chars_eq(
        t,
        "super",
    ) {
        st.meta = true;
    } else if t.len() == 1 && st.key.is_none() {
        st.key = Some(t[0]);
    } else {
        st.failed = true;
    }
}

/// Parse a `+`-joined chord string such as `"Ctrl+Shift+V"` (see
/// [`chord_named`]).
pub fn parse_chord(raw: &str) -> (r: Option<Chord>)
    ensures
        r == chord_named(raw@),
{
    let chars = chars_of(raw);
    let t = trimmed_chars(chars.as_slice());
    if t.len() == 0 {
        return None;
    }
    let mut st = ChordScan { ctrl: false, shift: false, alt: false, meta: false, key: None, failed: false };
    let mut cur: Vec<char> = Vec::new();
    let mut i: usize = 0;
    proof {
        assert(t@.take(0) =~= Seq::<char>::empty());
    }
    while i < t.len()
        invariant
            i <= t@.len(),
            split_plus(t@.take(i as int)).len() > 0,
            st == scan_tokens(scan_start(), split_plus(t@.take(i as int)).drop_last()),
            cur@ == split_plus(t@.take(i as int)).last(),
        decreases t@.len() - i,
    {
        let c = t[i];
        let ghost prev = split_plus(t@.take(i as int));
        proof {
            assert(t@.take(i as int + 1).drop_last() =~= t@.take(i as int));
        }
        if c == '+' {
            proof {
                assert(prev =~= prev.drop_last().push(prev.last()));
                assert(split_plus(t@.take(i as int + 1)).drop_last() =~= prev);
            }
            scan_one(&mut st, &cur);
            cur = Vec::new();
        } else {
            cur.push(c);
            proof {
                assert(split_plus(t@.take(i as int + 1)).drop_last() =~= prev.drop_last());
            }
        }
        i += 1;
    }
    proof {
        assert(t@.take(t@.len() as int) =~= t@);
        let toks = split_plus(t@);
        assert(toks =~= toks.drop_last().push(toks.last()));
    }
    scan_one(&mut st, &cur);
    if st.failed {
        return None;
    }
    match st.key {
        Some(k) => Some(Chord::new(st.ctrl, st.shift, st.alt, st.meta, k)),
        None => None,
    }
}

/// The value of a string of decimal digits.
pub open spec fn digits_value(d: Seq<char>) -> nat
    decreases d.len(),
{
    if d.len() == 0 {
        0
    } else {
        digits_value(d.drop_last()) * 10 + ((d.last() as int) - 48) as nat
    }
}

/// Every char of `d` is an ASCII digit.
pub open spec fn all_digits(d: Seq<char>) -> bool {
    forall|i: int| 0 <= i < d.len() ==> #[trigger] spec_is_ascii_digit(d[i])
}

/// The `u64` a string spells as `u64::from_str` reads it: an optional `+`,
/// then one or more ASCII digits, with a value that fits.
pub open spec fn u64_named(s: Seq<char>) -> Option<u64> {
    let d = if s.len() > 0 && s[0] == '+' {
        s.drop_first()
    } else {
        s
    };
    if d.len() == 0 || !all_digits(d) || digits_value(d) > u64::MAX {
        None
    } else {
        Some(digits_value(d) as u64)
    }
}

proof fn lemma_digits_monotonic(d: Seq<char>, k: int)
    requires
        0 <= k <= d.len(),
    ensures
        digits_value(d.take(k)) <= digits_value(d),
    decreases d.len(),
{
    if k < d.len() {
        assert(d.drop_last().take(k) =~= d.take(k));
        lemma_digits_monotonic(d.drop_last(), k);
    } else {
        assert(d.take(k) =~= d);
    }
}

/// Parse a `u64` the way `u64::from_str` does (see [`u64_named`]).
pub fn parse_u64(s: &[char]) -> (r: Option<u64>)
    ensures
        r == u64_named(s@),
{
    let n = s.len();
    let start: usize = if n > 0 && s[0] == '+' {
        1
    } else {
        0
    };
    let ghost d = if s@.len() > 0 && s@[0] == '+' {
        s@.drop_first()
    } else {
        s@
    };
    assert(d =~= s@.subrange(start as int, n as int));
    if start == n {
        return None;
    }
    let mut v: u64 = 0;
    let mut i: usize = start;
    while i < n
        invariant
            start <= i <= n == s@.len(),
            start < n,
            d == s@.subrange(start as int, n as int),
            d == (if s@.len() > 0 && s@[0] == '+' {
                s@.drop_first()
            } else {
                s@
            }),
            all_digits(s@.subrange(start as int, i as int)),
            v as nat == digits_value(s@.subrange(start as int, i as int)),
        decreases n - i,
    {
        let c = s[i];
        let ghost pre = s@.subrange(start as int, i as int);
        let ghost next = s@.subrange(start as int, i as int + 1);
        proof {
            assert(next.drop_last() =~= pre);
            assert(d.take(i - start + 1) =~= next);
        }
        if !(c >= '0' && c <= '9') {
            proof {
                assert(d[i - start] == c);
                assert(!spec_is_ascii_digit(d[i - start]));
                assert(!all_digits(d));
            }
            return None;
        }
        let digit = ((c as u32) - 48) as u64;
        proof {
            assert(next.last() == c);
            assert(digits_value(next) == v * 10 + digit);
        }
        let nv = match v.checked_mul(10) {
            Some(x) => match x.checked_add(digit) {
                Some(y) => y,
                None => {
                    proof {
                        lemma_digits_monotonic(d, i - start + 1);
                    }
                    return None;
                },
            },
            None => {
                proof {
                    lemma_digits_monotonic(d, i - start + 1);
                }
                return None;
            },
        };
        proof {
            assert(all_digits(next)) by {
                assert forall|j: int| 0 <= j < next.len() implies #[trigger] spec_is_ascii_digit(next[j]) by {
                    if j < pre.len() {
                        assert(next[j] == pre[j]);
                    }
                }
            }
        }
        v = nv;
        i += 1;
    }
    proof {
        assert(s@.subrange(start as int, n as int) == d);
    }
    Some(v)
}

/// The configuration as a value.
pub struct ConfigView {
    pub enabled: bool,
    pub default_method: InputMethod,
    pub normalization: NormalizationForm,
    pub toggle_shortcut: Chord,
    pub cycle_shortcut: Chord,
    pub show_overlay: bool,
    pub custom_rules_dir: Option<Seq<char>>,
    pub timeout_ms: u64,
}

/// User-facing configuration for the Vietnamese input composer.
#[derive(Debug, Clone, PartialEq, Eq)]
pub struct VietnameseInputConfig {
    /// Whether composition is enabled; off by default.
    pub enabled: bool,
    /// The input method activated on startup.
    pub default_method: InputMethod,
    /// Normalization form applied to composed output.
    pub normalization: NormalizationForm,
    /// Chord that toggles Vietnamese input on/off (default Ctrl+Shift+V).
    pub toggle_shortcut: KeyShortcut,
    /// Chord that cycles through the input methods (default Ctrl+Shift+I).
    pub cycle_shortcut: KeyShortcut,
    /// Whether the composition overlay is shown.
    pub show_overlay: bool,
    /// Optional directory of custom input-method rule files.
    pub custom_rules_dir: Option<String>,
    /// Idle timeout (ms) after which an incomplete sequence is flushed.
    pub timeout_ms: u64,
}

impl View for VietnameseInputConfig {
    type V = ConfigView;

    open spec fn view(&self) -> ConfigView {
        ConfigView {
            enabled: self.enabled,
            default_method: self.default_method,
            normalization: self.normalization,
            toggle_shortcut: self.toggle_shortcut,
            cycle_shortcut: self.cycle_shortcut,
            show_overlay: self.show_overlay,
            custom_rules_dir: match self.custom_rules_dir {
                Some(d) => Some(d@),
                None => None,
            },
            timeout_ms: self.timeout_ms,
        }
    }
}

/// The default configuration: disabled, Telex, NFC, Ctrl+Shift+V to toggle,
/// Ctrl+Shift+I to cycle, overlay shown, no custom rules, 500 ms timeout.
pub open spec fn default_config() -> ConfigView {
    ConfigView {
        enabled: false,
        default_method: InputMethod::Telex,
        normalization: NormalizationForm::Nfc,
        toggle_shortcut: default_shortcuts().toggle,
        cycle_shortcut: default_shortcuts().cycle,
        show_overlay: true,
        custom_rules_dir: None,
        timeout_ms: DEFAULT_TIMEOUT_MS,
    }
}

impl Default for VietnameseInputConfig {
    fn default() -> (r: Self)
        ensures
            r@ == default_config(),
    {
        VietnameseInputConfig {
            enabled: false,
            default_method: InputMethod::Telex,
            normalization: NormalizationForm::Nfc,
            toggle_shortcut: Chord::ctrl_shift('v'),
            cycle_shortcut: Chord::ctrl_shift('i'),
            show_overlay: true,
            custom_rules_dir: None,
            timeout_ms: DEFAULT_TIMEOUT_MS,
        }
    }
}

/// The value stored under `key` in a list of (key, value) entries: that of
/// the last entry for the key, or empty when there is none.
pub open spec fn lookup(es: Seq<(Seq<char>, Seq<char>)>, key: Seq<char>) -> Seq<char>
    decreases es.len(),
{
    if es.len() == 0 {
        Seq::empty()
    } else if es.last().0 == key {
        es.last().1
    } else {
        lookup(es.drop_last(), key)
    }
}

/// The configuration read from stored entries, each field falling back to
/// its default when its value is absent or unparseable.
#[verifier::opaque]
pub open spec fn config_from_entries(es: Seq<(Seq<char>, Seq<char>)>) -> ConfigView {
    let d = default_config();
    let dir = trim(lookup(es, keys::CUSTOM_RULES_DIR@));
    ConfigView {
        enabled: bool_named(lookup(es, keys::ENABLED@), d.enabled),
        default_method: match method_named(lookup(es, keys::METHOD@)) {
            Some(m) => m,
            None => d.default_method,
        },
        normalization: match normalization_named(lookup(es, keys::NORMALIZATION@)) {
            Some(f) => f,
            None => d.normalization,
        },
        toggle_shortcut: match chord_named(lookup(es, keys::TOGGLE_SHORTCUT@)) {
            Some(c) => c,
            None => d.toggle_shortcut,
        },
        cycle_shortcut: match chord_named(lookup(es, keys::CYCLE_SHORTCUT@)) {
            Some(c) => c,
            None => d.cycle_shortcut,
        },
        show_overlay: bool_named(lookup(es, keys::SHOW_OVERLAY@), d.show_overlay),
        custom_rules_dir: if dir.len() == 0 {
            None
        } else {
            Some(dir)
        },
        timeout_ms: match u64_named(trim(lookup(es, keys::TIMEOUT_MS@))) {
            Some(n) => n,
            None => d.timeout_ms,
        },
    }
}

/// The (key, value) entries a configuration is stored as.
pub open spec fn stored_entries(c: ConfigView) -> Seq<(Seq<char>, Seq<char>)> {
    seq![
        (keys::ENABLED@, if c.enabled { "Y"@ } else { ""@ }),
        (keys::METHOD@, method_ident(c.default_method)),
        (keys::NORMALIZATION@, normalization_ident(c.normalization)),
        (keys::TOGGLE_SHORTCUT@, chord_text(c.toggle_shortcut)),
        (keys::CYCLE_SHORTCUT@, chord_text(c.cycle_shortcut)),
        (keys::SHOW_OVERLAY@, if c.show_overlay { "Y"@ } else { "N"@ }),
        (keys::CUSTOM_RULES_DIR@, match c.custom_rules_dir {
            Some(d) => d,
            None => ""@,
        }),
        (keys::TIMEOUT_MS@, crate::text::decimal(c.timeout_ms as nat)),
    ]
}

/// Entries under the eight keys, in the order [`stored_entries`] uses, with
/// the given values.
pub open spec fn keyed(v: Seq<Seq<char>>) -> Seq<(Seq<char>, Seq<char>)> {
    seq![
        (keys::ENABLED@, v[0]),
        (keys::METHOD@, v[1]),
        (keys::NORMALIZATION@, v[2]),
        (keys::TOGGLE_SHORTCUT@, v[3]),
        (keys::CYCLE_SHORTCUT@, v[4]),
        (keys::SHOW_OVERLAY@, v[5]),
        (keys::CUSTOM_RULES_DIR@, v[6]),
        (keys::TIMEOUT_MS@, v[7]),
    ]
}

/// The eight keys a configuration is stored under, in the order
/// [`stored_entries`] uses.
pub open spec fn config_keys() -> Seq<Seq<char>> {
    seq![
        keys::ENABLED@,
        keys::METHOD@,
        keys::NORMALIZATION@,
        keys::TOGGLE_SHORTCUT@,
        keys::CYCLE_SHORTCUT@,
        keys::SHOW_OVERLAY@,
        keys::CUSTOM_RULES_DIR@,
        keys::TIMEOUT_MS@,
    ]
}

/// The values `store` holds under the eight keys, in that order.
pub open spec fn read_values<S: OptionStore>(store: &S) -> Seq<Seq<char>> {
    seq![
        store.stored(keys::ENABLED@),
        store.stored(keys::METHOD@),
        store.stored(keys::NORMALIZATION@),
        store.stored(keys::TOGGLE_SHORTCUT@),
        store.stored(keys::CYCLE_SHORTCUT@),
        store.stored(keys::SHOW_OVERLAY@),
        store.stored(keys::CUSTOM_RULES_DIR@),
        store.stored(keys::TIMEOUT_MS@),
    ]
}

/// `k` is the key of one of the first `n` entries of `es`.
pub open spec fn key_among(es: Seq<(Seq<char>, Seq<char>)>, n: int, k: Seq<char>) -> bool {
    exists|j: int| 0 <= j < n && (#[trigger] es[j]).0 == k
}

/// The value stored under `key` in `entries` (see [`lookup`]).
fn lookup_value(entries: &Vec<(String, String)>, key: &str) -> (r: String)
    ensures
        r@ == lookup(pair_views(entries@), key@),
{
    let k = key.to_owned();
    let ghost pv = pair_views(entries@);
    let mut i: usize = entries.len();
    proof {
        assert(pv.take(i as int) =~= pv);
    }
    while i > 0
        invariant
            i <= entries@.len(),
            pv == pair_views(entries@),
            k@ == key@,
            lookup(pv, key@) == lookup(pv.take(i as int), key@),
        decreases i,
    {
        proof {
            assert(pv.take(i as int).drop_last() =~= pv.take(i as int - 1));
        }
        if entries[i - 1].0 == k {
            return entries[i - 1].1.clone();
        }
        i -= 1;
    }
    String::new()
}

/// A pair of owned strings.
fn entry(key: &str, value: &str) -> (r: (String, String))
    ensures
        r.0@ == key@,
        r.1@ == value@,
{
    (key.to_owned(), value.to_owned())
}

/// Abstraction over a persisted key/value option store. An unset key reads
/// as the empty string, and setting the empty string clears a key. The
/// contracts of `get` and `set` are what every implementation promises;
/// [`MemoryOptionStore`] is one whose promises are verified.
pub trait OptionStore {
    /// The value held under `key`: what was last set there, or the empty
    /// string when the key is unset or was cleared.
    spec fn stored(&self, key: Seq<char>) -> Seq<char>;

    /// The (key, value) pairs set on this store so far, oldest first.
    spec fn writes(&self) -> Seq<(Seq<char>, Seq<char>)>;

    /// The value for `key`, or an empty string when unset.
    fn get(&self, key: &str) -> (r: String)
        ensures
            r@ == self.stored(key@),
    ;

    /// Persist `value` under `key`; an empty value clears the key. No other
    /// key changes, and the write is recorded after those before it.
    fn set(&mut self, key: &str, value: &str)
        ensures
            final(self).writes() == old(self).writes().push((key@, value@)),
            forall|k: Seq<char>|
                #[trigger] final(self).stored(k) == if k == key@ {
                    value@
                } else {
                    old(self).stored(k)
                },
    ;
}

/// An option store held in memory, as a list of (key, value) entries in
/// the order they were set; a later entry for a key shadows earlier ones.
pub struct MemoryOptionStore {
    entries: Vec<(String, String)>,
}

impl MemoryOptionStore {
    /// An empty store: every key reads as the empty string.
    pub fn new() -> (r: Self)
        ensures
            forall|k: Seq<char>| #[trigger] r.stored(k) == Seq::<char>::empty(),
    {
        let r = MemoryOptionStore { entries: Vec::new() };
        proof {
            assert(pair_views(r.entries@) =~= Seq::<(Seq<char>, Seq<char>)>::empty());
        }
        r
    }
}

impl OptionStore for MemoryOptionStore {
    closed spec fn stored(&self, key: Seq<char>) -> Seq<char> {
        lookup(pair_views(self.entries@), key)
    }

    closed spec fn writes(&self) -> Seq<(Seq<char>, Seq<char>)> {
        pair_views(self.entries@)
    }

    fn get(&self, key: &str) -> (r: String) {
        lookup_value(&self.entries, key)
    }

    fn set(&mut self, key: &str, value: &str) {
        let ghost before = pair_views(self.entries@);
        self.entries.push((key.to_owned(), value.to_owned()));
        proof {
            assert(pair_views(self.entries@) =~= before.push((key@, value@)));
            assert(pair_views(self.entries@).drop_last() =~= before);
        }
    }
}

impl VietnameseInputConfig {
    /// The configuration read from (key, value) entries (see
    /// [`config_from_entries`]).
    pub fn from_entries(entries: &Vec<(String, String)>) -> (r: Self)
        ensures
            r@ == config_from_entries(pair_views(entries@)),
    {
        proof {
            reveal(config_from_entries);
        }
        let enabled = parse_bool(lookup_value(entries, keys::ENABLED).as_str(), false);
        let default_method = match parse_method(lookup_value(entries, keys::METHOD).as_str()) {
            Some(m) => m,
            None => InputMethod::Telex,
        };
        let normalization = match parse_normalization(lookup_value(entries, keys::NORMALIZATION).as_str()) {
            Some(f) => f,
            None => NormalizationForm::Nfc,
        };
        let toggle_shortcut = match parse_chord(lookup_value(entries, keys::TOGGLE_SHORTCUT).as_str()) {
            Some(c) => c,
            None => Chord::ctrl_shift('v'),
        };
        let cycle_shortcut = match parse_chord(lookup_value(entries, keys::CYCLE_SHORTCUT).as_str()) {
            Some(c) => c,
            None => Chord::ctrl_shift('i'),
        };
        let show_overlay = parse_bool(lookup_value(entries, keys::SHOW_OVERLAY).as_str(), true);
        let dir_raw = lookup_value(entries, keys::CUSTOM_RULES_DIR);
        let dir_chars = chars_of(dir_raw.as_str());
        let dir = trimmed_chars(dir_chars.as_slice());
        let custom_rules_dir = if dir.len() == 0 {
            None
        } else {
            Some(crate::text::string_of(dir.as_slice()))
        };
        let timeout_raw = lookup_value(entries, keys::TIMEOUT_MS);
        let timeout_chars = chars_of(timeout_raw.as_str());
        let timeout_trimmed = trimmed_chars(timeout_chars.as_slice());
        let timeout_ms = match parse_u64(timeout_trimmed.as_slice()) {
            Some(n) => n,
            None => DEFAULT_TIMEOUT_MS,
        };
        VietnameseInputConfig {
            enabled,
            default_method,
            normalization,
            toggle_shortcut,
            cycle_shortcut,
            show_overlay,
            custom_rules_dir,
            timeout_ms,
        }
    }

    /// The (key, value) entries this configuration is stored as (see
    /// [`stored_entries`]).
    pub fn option_entries(&self) -> (r: Vec<(String, String)>)
        ensures
            pair_views(r@) == stored_entries(self@),
    {
        let mut timeout = String::new();
        push_decimal(&mut timeout, self.timeout_ms);
        let dir = match &self.custom_rules_dir {
            Some(d) => d.clone(),
            None => "".to_owned(),
        };
        let mut r: Vec<(String, String)> = Vec::new();
        r.push(entry(keys::ENABLED, bool_to_str(self.enabled)));
        r.push(entry(keys::METHOD, method_to_str(self.default_method)));
        r.push(entry(keys::NORMALIZATION, normalization_to_str(self.normalization)));
        r.push(entry(keys::TOGGLE_SHORTCUT, chord_to_string(&self.toggle_shortcut).as_str()));
        r.push(entry(keys::CYCLE_SHORTCUT, chord_to_string(&self.cycle_shortcut).as_str()));
        r.push(entry(keys::SHOW_OVERLAY, if self.show_overlay { "Y" } else { "N" }));
        r.push(entry(keys::CUSTOM_RULES_DIR, dir.as_str()));
        r.push(entry(keys::TIMEOUT_MS, timeout.as_str()));
        proof {
            assert(timeout@ =~= crate::text::decimal(self.timeout_ms as nat));
            assert(pair_views(r@) =~= stored_entries(self@));
        }
        r
    }

    /// Load the configuration from a store: each of the eight keys is read
    /// and the result is what [`from_entries`](Self::from_entries) makes of
    /// the values the store holds under them.
    pub fn load_from<S: OptionStore>(store: &S) -> (r: Self)
        ensures
            r@ == config_from_entries(keyed(read_values(store))),
    {
        let mut entries: Vec<(String, String)> = Vec::new();
        entries.push((keys::ENABLED.to_owned(), store.get(keys::ENABLED)));
        entries.push((keys::METHOD.to_owned(), store.get(keys::METHOD)));
        entries.push((keys::NORMALIZATION.to_owned(), store.get(keys::NORMALIZATION)));
        entries.push((keys::TOGGLE_SHORTCUT.to_owned(), store.get(keys::TOGGLE_SHORTCUT)));
        entries.push((keys::CYCLE_SHORTCUT.to_owned(), store.get(keys::CYCLE_SHORTCUT)));
        entries.push((keys::SHOW_OVERLAY.to_owned(), store.get(keys::SHOW_OVERLAY)));
        entries.push((keys::CUSTOM_RULES_DIR.to_owned(), store.get(keys::CUSTOM_RULES_DIR)));
        entries.push((keys::TIMEOUT_MS.to_owned(), store.get(keys::TIMEOUT_MS)));
        let r = Self::from_entries(&entries);
        proof {
            let es = entries@;
            let pv = pair_views(es);
            assert(es.len() == 8);
            let v = read_values(store);
            assert(pv.len() == keyed(v).len());
            assert forall|i: int| 0 <= i < 8 implies pv[i] == keyed(v)[i] by {
                assert(pv[i] == (es[i].0@, es[i].1@));
            }
            assert(pv =~= keyed(v));
        }
        r
    }

    /// Persist this configuration to a store: each entry of
    /// [`option_entries`](Self::option_entries) is set in turn, in that order
    /// and nothing else is written (the store is never read), so the store
    /// then holds each of the eight keys' values (see [`stored_entries`]),
    /// and every other key is left as it was.
    pub fn save_to<S: OptionStore>(&self, store: &mut S)
        ensures
            forall|j: int|
                0 <= j < 8 ==> final(store).stored(#[trigger] config_keys()[j]) == stored_entries(self@)[j].1,
            forall|k: Seq<char>| !config_keys().contains(k) ==> #[trigger] final(store).stored(k) == old(store).stored(k),
            final(store).writes() == old(store).writes() + stored_entries(self@),
    {
        let entries = self.option_entries();
        let ghost es = stored_entries(self@);
        proof {
            lemma_stored_keys_distinct(self@);
        }
        let mut i: usize = 0;
        while i < entries.len()
            invariant
                i <= entries@.len(),
                pair_views(entries@) == es,
                es == stored_entries(self@),
                es.len() == 8,
                forall|a: int, b: int| 0 <= a < 8 && 0 <= b < 8 && a != b ==> #[trigger] es[a].0 != #[trigger] es[b].0,
                forall|j: int| 0 <= j < i ==> store.stored((#[trigger] es[j]).0) == es[j].1,
                forall|k: Seq<char>| !key_among(es, i as int, k) ==> #[trigger] store.stored(k) == old(store).stored(k),
                store.writes() == old(store).writes() + es.take(i as int),
            decreases entries@.len() - i,
        {
            proof {
                assert(pair_views(entries@)[i as int] == (entries@[i as int].0@, entries@[i as int].1@));
            }
            store.set(entries[i].0.as_str(), entries[i].1.as_str());
            proof {
                assert(es.take(i + 1) =~= es.take(i as int).push(es[i as int]));
                assert forall|j: int| 0 <= j < i + 1 implies store.stored((#[trigger] es[j]).0) == es[j].1 by {
                    if j < i {
                        assert(es[j].0 != es[i as int].0);
                    }
                }
                assert forall|k: Seq<char>| !key_among(es, i + 1, k) implies #[trigger] store.stored(k) == old(
                    store,
                ).stored(k) by {
                    assert(!key_among(es, i as int, k)) by {
                        if key_among(es, i as int, k) {
                            let j = choose|j: int| 0 <= j < i && (#[trigger] es[j]).0 == k;
                            assert(key_among(es, i + 1, k));
                        }
                    }
                    assert(es[i as int].0 != k) by {
                        if es[i as int].0 == k {
                            assert(key_among(es, i + 1, k));
                        }
                    }
                }
            }
            i += 1;
        }
        proof {
            assert(es.take(8) =~= es);
            assert forall|j: int| 0 <= j < 8 implies final(store).stored(#[trigger] config_keys()[j])
                == stored_entries(self@)[j].1 by {
                assert(config_keys()[j] == es[j].0);
            }
            assert forall|k: Seq<char>| !config_keys().contains(k) implies #[trigger] final(store).stored(k) == old(
                store,
            ).stored(k) by {
                if key_among(es, 8, k) {
                    let j = choose|j: int| 0 <= j < 8 && (#[trigger] es[j]).0 == k;
                    assert(config_keys()[j] == k);
                }
            }
        }
    }

    /// Activate this configuration: the method, normalization form and
    /// shortcuts are applied, then the enabled gate is set.
    pub fn apply(&self, state: &mut InputState)
        ensures
            final(state).enabled == self.enabled,
            final(state).composer@.active == self.default_method,
            final(state).composer@.form == self.normalization,
            final(state).shortcuts.toggle == self.toggle_shortcut,
            final(state).shortcuts.cycle == self.cycle_shortcut,
            self.enabled ==> final(state).composer@.sessions == old(state).composer@.sessions,
            !self.enabled ==> final(state).composer@.sessions == old(state).composer@.sessions.remove(
                crate::integration::DEFAULT_SESSION_ID@,
            ),
    {
        set_method(state, self.default_method);
        set_normalization(state, self.normalization);
        set_toggle_shortcut(state, self.toggle_shortcut);
        set_cycle_shortcut(state, self.cycle_shortcut);
        set_enabled(state, self.enabled);
    }

    /// Load the configuration from `store`, then [`apply`](Self::apply) it
    /// to `state`; the loaded configuration is returned.
    pub fn load_and_apply<S: OptionStore>(store: &S, state: &mut InputState) -> (r: Self)
        ensures
            r@ == config_from_entries(keyed(read_values(store))),
            final(state).enabled == r.enabled,
            final(state).composer@.active == r.default_method,
            final(state).composer@.form == r.normalization,
            final(state).shortcuts.toggle == r.toggle_shortcut,
            final(state).shortcuts.cycle == r.cycle_shortcut,
            r.enabled ==> final(state).composer@.sessions == old(state).composer@.sessions,
            !r.enabled ==> final(state).composer@.sessions == old(state).composer@.sessions.remove(
                crate::integration::DEFAULT_SESSION_ID@,
            ),
    {
        let config = Self::load_from(store);
        config.apply(state);
        config
    }
}

/// No char of `s` is whitespace.
pub open spec fn no_whitespace(s: Seq<char>) -> bool {
    forall|i: int| 0 <= i < s.len() ==> !crate::text::spec_is_whitespace(#[trigger] s[i])
}

/// Every char of `s` is its own ASCII lowercase.
pub open spec fn lowercase_only(s: Seq<char>) -> bool {
    forall|i: int| 0 <= i < s.len() ==> spec_ascii_lower(#[trigger] s[i]) == s[i]
}

proof fn lemma_ident_noop(s: Seq<char>)
    requires
        s.len() > 0,
        no_whitespace(s),
        lowercase_only(s),
    ensures
        normalized_ident(s) == s,
{
    assert(!crate::text::spec_is_whitespace(s[0]));
    assert(!crate::text::spec_is_whitespace(s[s.len() - 1]));
    assert(crate::text::non_ws_pred()(s[0]));
    assert(crate::text::non_ws_pred()(s[s.len() - 1]));
    assert(trim(s) =~= s);
    assert(lower_seq(s) =~= s);
}

proof fn lemma_split_word(s: Seq<char>, w: Seq<char>)
    requires
        forall|i: int| 0 <= i < w.len() ==> #[trigger] w[i] != '+',
    ensures
        split_plus(s + w).len() == split_plus(s).len(),
        split_plus(s + w) == split_plus(s).update(split_plus(s).len() - 1, split_plus(s).last() + w),
    decreases w.len(),
{
    lemma_split_nonempty(s);
    if w.len() == 0 {
        assert(s + w =~= s);
        assert(split_plus(s).last() + w =~= split_plus(s).last());
        assert(split_plus(s).update(split_plus(s).len() - 1, split_plus(s).last()) =~= split_plus(s));
    } else {
        let w0 = w.drop_last();
        lemma_split_word(s, w0);
        assert((s + w).drop_last() =~= s + w0);
        assert((s + w).last() == w.last());
        let t = split_plus(s);
        assert(t.last() + w =~= (t.last() + w0).push(w.last()));
        assert(split_plus(s + w) =~= t.update(t.len() - 1, t.last() + w));
    }
}

proof fn lemma_part_step(s: Seq<char>, on: bool, word: Seq<char>)
    requires
        forall|i: int| 0 <= i < word.len() ==> #[trigger] word[i] != '+',
        split_plus(s).last() == Seq::<char>::empty(),
    ensures
        split_plus(s + part(on, word)).last() == Seq::<char>::empty(),
        split_plus(s + part(on, word)).drop_last() == (if on {
            split_plus(s).drop_last().push(word)
        } else {
            split_plus(s).drop_last()
        }),
{
    lemma_split_nonempty(s);
    let t = split_plus(s);
    if on {
        lemma_split_word(s, word);
        assert(t.last() + word =~= word);
        assert(s + part(on, word) =~= (s + word).push('+'));
        assert((s + part(on, word)).drop_last() =~= s + word);
        assert(split_plus(s + word) =~= t.drop_last().push(word));
    } else {
        assert(s + part(on, word) =~= s);
    }
}

proof fn lemma_scan_step(st0: ChordScan, toks: Seq<Seq<char>>, on: bool, word: Seq<char>, next: ChordScan)
    requires
        next == (if on {
            scan_token(scan_tokens(st0, toks), word)
        } else {
            scan_tokens(st0, toks)
        }),
    ensures
        scan_tokens(st0, if on {
            toks.push(word)
        } else {
            toks
        }) == next,
{
    if on {
        assert(toks.push(word).drop_last() =~= toks);
    }
}

/// A chord whose text reads back as itself: its key is lowercase and is
/// neither `+` nor whitespace.
pub open spec fn chord_storable(c: Chord) -> bool {
    &&& spec_ascii_lower(c.key) == c.key
    &&& c.key != '+'
    &&& !crate::text::spec_is_whitespace(c.key)
}

/// A chord written as text reads back as the same chord.
pub proof fn lemma_chord_round_trip(c: Chord)
    requires
        chord_storable(c),
    ensures
        chord_named(chord_text(c)) == Some(c),
{
    reveal_strlit("ctrl");
    reveal_strlit("control");
    reveal_strlit("shift");
    reveal_strlit("alt");
    reveal_strlit("option");
    reveal_strlit("meta");
    reveal_strlit("cmd");
    reveal_strlit("command");
    reveal_strlit("win");
    reveal_strlit("super");
    let st0 = scan_start();
    let e = Seq::<char>::empty();
    assert(split_plus(e) =~= seq![e]);
    assert(split_plus(e).drop_last() =~= Seq::<Seq<char>>::empty());
    lemma_ident_noop("ctrl"@);
    lemma_ident_noop("shift"@);
    lemma_ident_noop("alt"@);
    lemma_ident_noop("meta"@);
    let p1 = part(c.ctrl, "ctrl"@);
    let p2 = part(c.shift, "shift"@);
    let p3 = part(c.alt, "alt"@);
    let p4 = part(c.meta, "meta"@);
    let s1 = e + p1;
    let s2 = s1 + p2;
    let s3 = s2 + p3;
    let s4 = s3 + p4;
    lemma_part_step(e, c.ctrl, "ctrl"@);
    lemma_part_step(s1, c.shift, "shift"@);
    lemma_part_step(s2, c.alt, "alt"@);
    lemma_part_step(s3, c.meta, "meta"@);
    let st1 = ChordScan { ctrl: c.ctrl, ..st0 };
    let st2 = ChordScan { shift: c.shift, ..st1 };
    let st3 = ChordScan { alt: c.alt, ..st2 };
    let st4 = ChordScan { meta: c.meta, ..st3 };
    assert("meta"@[0] != "ctrl"@[0]);
    lemma_scan_step(st0, split_plus(e).drop_last(), c.ctrl, "ctrl"@, st1);
    lemma_scan_step(st0, split_plus(s1).drop_last(), c.shift, "shift"@, st2);
    lemma_scan_step(st0, split_plus(s2).drop_last(), c.alt, "alt"@, st3);
    lemma_scan_step(st0, split_plus(s3).drop_last(), c.meta, "meta"@, st4);
    let key = seq![c.key];
    let text = s4 + key;
    assert(text =~= chord_text(c));
    assert(forall|i: int| 0 <= i < key.len() ==> #[trigger] key[i] != '+');
    lemma_split_word(s4, key);
    lemma_split_nonempty(s4);
    let toks = split_plus(text);
    assert(toks.drop_last() =~= split_plus(s4).drop_last());
    assert(toks.last() =~= key);
    assert(normalized_ident(key) =~= key) by {
        lemma_ident_noop(key);
    }
    assert(toks =~= toks.drop_last().push(key));
    assert(scan_tokens(st0, toks) == scan_token(st4, key));
    assert(scan_tokens(st0, toks) == ChordScan { key: Some(c.key), ..st4 });
    assert(no_whitespace(text)) by {
        assert forall|i: int| 0 <= i < text.len() implies !crate::text::spec_is_whitespace(#[trigger] text[i]) by {
            if i < s4.len() {
                if i < s3.len() {
                    if i < s2.len() {
                        if i < s1.len() {
                            assert(text[i] == p1[i]);
                        } else {
                            assert(text[i] == p2[i - s1.len()]);
                        }
                    } else {
                        assert(text[i] == p3[i - s2.len()]);
                    }
                } else {
                    assert(text[i] == p4[i - s3.len()]);
                }
            } else {
                assert(text[i] == c.key);
            }
        }
    }
    assert(trim(text) =~= text) by {
        assert(crate::text::non_ws_pred()(text[0]));
        assert(crate::text::non_ws_pred()(text[text.len() - 1]));
    }
}

proof fn lemma_digit_char(d: nat)
    requires
        d < 10,
    ensures
        (crate::text::digit_char(d) as int) - 48 == d,
        spec_is_ascii_digit(crate::text::digit_char(d)),
        !crate::text::spec_is_whitespace(crate::text::digit_char(d)),
{
    if d == 0 {
    } else if d == 1 {
    } else if d == 2 {
    } else if d == 3 {
    } else if d == 4 {
    } else if d == 5 {
    } else if d == 6 {
    } else if d == 7 {
    } else if d == 8 {
    } else {
    }
}

proof fn lemma_decimal_digits(n: nat)
    ensures
        crate::text::decimal(n).len() > 0,
        all_digits(crate::text::decimal(n)),
        no_whitespace(crate::text::decimal(n)),
        digits_value(crate::text::decimal(n)) == n,
    decreases n,
{
    let d = crate::text::decimal(n);
    if n < 10 {
        lemma_digit_char(n);
        assert(d =~= seq![crate::text::digit_char(n)]);
        assert(d.drop_last() =~= Seq::<char>::empty());
        assert(digits_value(d.drop_last()) == 0);
        assert(digits_value(d) == digits_value(d.drop_last()) * 10 + ((d.last() as int) - 48) as nat);
    } else {
        lemma_digit_char(n % 10);
        assert(n == (n / 10) * 10 + n % 10);
        lemma_decimal_digits(n / 10);
        let p = crate::text::decimal(n / 10);
        assert(d.drop_last() =~= p);
        assert(d.last() == crate::text::digit_char(n % 10));
        assert(digits_value(d) == digits_value(p) * 10 + ((d.last() as int) - 48) as nat);
        assert(all_digits(d)) by {
            assert forall|i: int| 0 <= i < d.len() implies #[trigger] spec_is_ascii_digit(d[i]) by {
                if i < p.len() {
                    assert(d[i] == p[i]);
                }
            }
        }
        assert(no_whitespace(d)) by {
            assert forall|i: int| 0 <= i < d.len() implies !crate::text::spec_is_whitespace(#[trigger] d[i]) by {
                if i < p.len() {
                    assert(d[i] == p[i]);
                }
            }
        }
    }
}

/// A number written in decimal reads back as itself.
pub proof fn lemma_timeout_round_trip(n: u64)
    ensures
        u64_named(trim(crate::text::decimal(n as nat))) == Some(n),
{
    let d = crate::text::decimal(n as nat);
    lemma_decimal_digits(n as nat);
    assert(trim(d) =~= d) by {
        assert(crate::text::non_ws_pred()(d[0]));
        assert(crate::text::non_ws_pred()(d[d.len() - 1]));
    }
    assert(spec_is_ascii_digit(d[0]));
}

proof fn lemma_lookup_at(es: Seq<(Seq<char>, Seq<char>)>, j: int)
    requires
        0 <= j < es.len(),
        forall|i: int| 0 <= i < es.len() && i != j ==> #[trigger] es[i].0 != es[j].0,
    ensures
        lookup(es, es[j].0) == es[j].1,
    decreases es.len(),
{
    if j < es.len() - 1 {
        assert(es[es.len() - 1].0 != es[j].0);
        let init = es.drop_last();
        assert forall|i: int| 0 <= i < init.len() && i != j implies #[trigger] init[i].0 != init[j].0 by {
            assert(init[i] == es[i]);
        }
        lemma_lookup_at(init, j);
    }
}

/// The length of the `i`-th key of [`stored_entries`].
spec fn key_len(i: int) -> int {
    if i == 0 {
        24
    } else if i == 1 {
        23
    } else if i == 2 {
        30
    } else if i == 3 {
        32
    } else if i == 4 {
        31
    } else if i == 5 {
        29
    } else if i == 6 {
        33
    } else {
        27
    }
}

proof fn lemma_stored_keys_distinct(c: ConfigView)
    ensures
        stored_entries(c).len() == 8,
        forall|i: int, j: int|
            0 <= i < 8 && 0 <= j < 8 && i != j ==> #[trigger] stored_entries(c)[i].0 != #[trigger] stored_entries(c)[j].0,
{
    reveal_strlit("vietnamese-input-enabled");
    reveal_strlit("vietnamese-input-method");
    reveal_strlit("vietnamese-input-normalization");
    reveal_strlit("vietnamese-input-toggle-shortcut");
    reveal_strlit("vietnamese-input-cycle-shortcut");
    reveal_strlit("vietnamese-input-show-overlay");
    reveal_strlit("vietnamese-input-custom-rules-dir");
    reveal_strlit("vietnamese-input-timeout-ms");
    let es = stored_entries(c);
    assert forall|i: int| 0 <= i < 8 implies #[trigger] es[i].0.len() == key_len(i) by {
        if i == 0 {
        } else if i == 1 {
        } else if i == 2 {
        } else if i == 3 {
        } else if i == 4 {
        } else if i == 5 {
        } else if i == 6 {
        } else {
        }
    }
    assert forall|i: int, j: int| 0 <= i < 8 && 0 <= j < 8 && i != j implies #[trigger] es[i].0 != #[trigger] es[j].0 by {
        assert(es[i].0.len() == key_len(i));
        assert(es[j].0.len() == key_len(j));
    }
}

/// A configuration whose shortcuts and custom-rules directory survive being
/// written as text: each shortcut key is lowercase and neither `+` nor
/// whitespace, and the directory (if any) is non-empty with no surrounding
/// whitespace.
pub open spec fn storable(c: ConfigView) -> bool {
    &&& chord_storable(c.toggle_shortcut)
    &&& chord_storable(c.cycle_shortcut)
    &&& match c.custom_rules_dir {
        Some(d) => d.len() > 0 && trim(d) == d,
        None => true,
    }
}

/// Saving a configuration and loading it back from the same store gives the
/// same configuration.
pub proof fn lemma_save_load_round_trip(c: ConfigView)
    requires
        storable(c),
    ensures
        config_from_entries(stored_entries(c)) == c,
{
    reveal(config_from_entries);
    reveal_strlit("Y");
    reveal_strlit("N");
    reveal_strlit("");
    reveal_strlit("y");
    reveal_strlit("yes");
    reveal_strlit("true");
    reveal_strlit("1");
    reveal_strlit("on");
    reveal_strlit("n");
    reveal_strlit("no");
    reveal_strlit("false");
    reveal_strlit("0");
    reveal_strlit("off");
    reveal_strlit("telex");
    reveal_strlit("vni");
    reveal_strlit("vni_windows");
    reveal_strlit("vniwindows");
    reveal_strlit("vni-windows");
    reveal_strlit("nfc");
    reveal_strlit("nfd");
    let es = stored_entries(c);
    let r = config_from_entries(es);
    lemma_stored_keys_distinct(c);
    assert forall|j: int| 0 <= j < 8 implies lookup(es, #[trigger] es[j].0) == es[j].1 by {
        assert forall|i: int| 0 <= i < es.len() && i != j implies #[trigger] es[i].0 != es[j].0 by {}
        lemma_lookup_at(es, j);
    }
    assert(lookup(es, es[0].0) == es[0].1);
    assert(es[0].0 == keys::ENABLED@);
    assert(lookup(es, es[1].0) == es[1].1);
    assert(es[1].0 == keys::METHOD@);
    assert(lookup(es, es[2].0) == es[2].1);
    assert(es[2].0 == keys::NORMALIZATION@);
    assert(lookup(es, es[3].0) == es[3].1);
    assert(es[3].0 == keys::TOGGLE_SHORTCUT@);
    assert(lookup(es, es[4].0) == es[4].1);
    assert(es[4].0 == keys::CYCLE_SHORTCUT@);
    assert(lookup(es, es[5].0) == es[5].1);
    assert(es[5].0 == keys::SHOW_OVERLAY@);
    assert(lookup(es, es[6].0) == es[6].1);
    assert(es[6].0 == keys::CUSTOM_RULES_DIR@);
    assert(lookup(es, es[7].0) == es[7].1);
    assert(es[7].0 == keys::TIMEOUT_MS@);
    // enabled / show_overlay
    assert(normalized_ident("Y"@) =~= "y"@) by {
        assert(trim("Y"@) =~= "Y"@) by {
            assert(crate::text::non_ws_pred()("Y"@[0]));
        }
    }
    assert(normalized_ident("N"@) =~= "n"@) by {
        assert(trim("N"@) =~= "N"@) by {
            assert(crate::text::non_ws_pred()("N"@[0]));
        }
    }
    assert(normalized_ident(""@) =~= ""@);
    assert("n"@[0] != "y"@[0]);
    assert("n"@[0] != "1"@[0]);
    assert(r.enabled == c.enabled);
    assert(r.show_overlay == c.show_overlay);
    // method
    lemma_ident_noop(method_ident(c.default_method));
    assert(r.default_method == c.default_method) by {
        assert("off"@[0] != "vni"@[0]);
    }
    // normalization
    lemma_ident_noop(normalization_ident(c.normalization));
    assert(r.normalization == c.normalization) by {
        assert("nfc"@[2] != "nfd"@[2]);
    }
    // shortcuts
    lemma_chord_round_trip(c.toggle_shortcut);
    lemma_chord_round_trip(c.cycle_shortcut);
    // custom rules directory
    assert(trim(Seq::<char>::empty()) =~= Seq::<char>::empty());
    // timeout
    lemma_timeout_round_trip(c.timeout_ms);
    assert(r.timeout_ms == c.timeout_ms);
}

/// A store holding what saving `c` writes loads back as `c`: saving a
/// configuration to a store and loading it from that store gives it back.
pub proof fn lemma_saved_store_loads_back<S: OptionStore>(c: ConfigView, store: &S)
    requires
        storable(c),
        forall|j: int| 0 <= j < 8 ==> store.stored(#[trigger] config_keys()[j]) == stored_entries(c)[j].1,
    ensures
        config_from_entries(keyed(read_values(store))) == c,
{
    let v = read_values(store);
    assert forall|j: int| 0 <= j < 8 implies v[j] == stored_entries(c)[j].1 by {
        assert(store.stored(config_keys()[j]) == stored_entries(c)[j].1);
    }
    assert(keyed(v) =~= stored_entries(c));
    lemma_save_load_round_trip(c);
}

/// A store holding nothing under the eight keys loads as the default
/// configuration.
pub proof fn lemma_empty_store_loads_default<S: OptionStore>(store: &S)
    requires
        forall|j: int| 0 <= j < 8 ==> store.stored(#[trigger] config_keys()[j]) == Seq::<char>::empty(),
    ensures
        config_from_entries(keyed(read_values(store))) == default_config(),
{
    let v = read_values(store);
    assert forall|j: int| 0 <= j < 8 implies v[j] == Seq::<char>::empty() by {
        assert(store.stored(config_keys()[j]) == Seq::<char>::empty());
    }
    reveal(config_from_entries);
    reveal_strlit("y");
    reveal_strlit("yes");
    reveal_strlit("true");
    reveal_strlit("1");
    reveal_strlit("on");
    reveal_strlit("n");
    reveal_strlit("no");
    reveal_strlit("false");
    reveal_strlit("0");
    reveal_strlit("off");
    reveal_strlit("telex");
    reveal_strlit("vni");
    reveal_strlit("vni_windows");
    reveal_strlit("vniwindows");
    reveal_strlit("vni-windows");
    reveal_strlit("nfc");
    reveal_strlit("nfd");
    let d = default_config();
    let es = keyed(v);
    lemma_stored_keys_distinct(d);
    assert forall|j: int| 0 <= j < 8 implies #[trigger] es[j].0 == stored_entries(d)[j].0 by {}
    assert forall|j: int| 0 <= j < 8 implies lookup(es, #[trigger] es[j].0) == Seq::<char>::empty() by {
        assert forall|i: int| 0 <= i < es.len() && i != j implies #[trigger] es[i].0 != es[j].0 by {
            assert(stored_entries(d)[i].0 != stored_entries(d)[j].0);
        }
        lemma_lookup_at(es, j);
    }
    assert(lookup(es, es[0].0) == Seq::<char>::empty());
    assert(lookup(es, es[1].0) == Seq::<char>::empty());
    assert(lookup(es, es[2].0) == Seq::<char>::empty());
    assert(lookup(es, es[3].0) == Seq::<char>::empty());
    assert(lookup(es, es[4].0) == Seq::<char>::empty());
    assert(lookup(es, es[5].0) == Seq::<char>::empty());
    assert(lookup(es, es[6].0) == Seq::<char>::empty());
    assert(lookup(es, es[7].0) == Seq::<char>::empty());
    assert(normalized_ident(Seq::<char>::empty()) =~= Seq::<char>::empty());
    assert(trim(Seq::<char>::empty()) =~= Seq::<char>::empty());
    assert(config_from_entries(es) == d);
}

} // verus!
