//! Telex input-method engine.
//!
//! Diacritics are typed with ordinary letters after a base character:
//!
//! - tone marks, placed on the tone-bearing nucleus vowel:
//!   `s` = sắc, `f` = huyền, `r` = hỏi, `x` = ngã, `j` = nặng;
//! - circumflex by doubling: `aa` → â, `ee` → ê, `oo` → ô;
//! - `w` after the last vowel: `aw` → ă, `ow` → ơ, `uw` → ư, `uow` → ươ;
//! - consonant mark: `dd` → đ.
//!
//! A key that cannot drive a transformation (a `w` with no `a/o/u`, a tone
//! key with no vowel) is kept verbatim as a base character. Every change is
//! recorded as a step so that backspace can undo it.

use vstd::prelude::*;

use crate::buffer::{push_model, BufferView, CompositionBuffer};
use crate::marks::{
    apply_d_stroke, apply_tone, buffer_has_vowel, d_stroke_model, find_last_vowel, has_vowel,
    last_vowel, lemma_last_vowel_at, recompose, rewrite, rewrite_model, spec_recompose, tone_model,
};
use crate::syllable::{
    base_vowel, spec_base_vowel, spec_is_vowel, spec_tone_mark, spec_vowel_mark, tone_mark_of, vowel_mark_of,
};
use crate::tone::{lemma_tone_target_found, tone_target};
use crate::text::{ascii_lower, chars_of, is_ascii_alpha, spec_ascii_lower, spec_is_ascii_alpha};
use crate::{InputMethodEngine, ToneMark, TransformResult, TransformStep, VowelMark};

verus! {

/// The tone applied by a (lowercase) Telex tone key.
pub open spec fn telex_tone_key(c: char) -> Option<ToneMark> {
    match c {
        's' => Some(ToneMark::Sac),
        'f' => Some(ToneMark::Huyen),
        'r' => Some(ToneMark::Hoi),
        'x' => Some(ToneMark::Nga),
        'j' => Some(ToneMark::Nang),
        _ => None,
    }
}

fn tone_for_key(c: char) -> (r: Option<ToneMark>)
    ensures
        r == telex_tone_key(c),
{
    match c {
        's' => Some(ToneMark::Sac),
        'f' => Some(ToneMark::Huyen),
        'r' => Some(ToneMark::Hoi),
        'x' => Some(ToneMark::Nga),
        'j' => Some(ToneMark::Nang),
        _ => None,
    }
}

/// The buffer after the `w` modifier: a horn on a trailing `o` (and on a
/// `u` just before it, giving `ươ`), a horn on a trailing `u`, or a breve on
/// a trailing `a` — "trailing" meaning the last vowel of the text. `None`
/// when the last vowel is none of these, or the text has no vowel.
pub open spec fn w_model(v: BufferView, key: char) -> Option<BufferView> {
    let s = v.current;
    let last = last_vowel(s);
    if last < 0 {
        None
    } else {
        let c = s[last];
        let b = spec_base_vowel(c)->0;
        if b == 'o' {
            let prev_u = last > 0 && spec_base_vowel(s[last - 1]) == Some('u');
            let s1 = if prev_u {
                match spec_recompose(s[last - 1], Some(VowelMark::Horn), spec_tone_mark(s[last - 1])) {
                    Some(p) => Some(s.update(last - 1, p)),
                    None => None,
                }
            } else {
                Some(s)
            };
            match s1 {
                None => None,
                Some(s1) => match spec_recompose(c, Some(VowelMark::Horn), spec_tone_mark(c)) {
                    None => None,
                    Some(r) => Some(rewrite_model(v, s1.update(last, r), key, TransformStep::VowelMark { base: b, result: r })),
                },
            }
        } else if b == 'u' || b == 'a' {
            let mark = if b == 'u' { VowelMark::Horn } else { VowelMark::Breve };
            match spec_recompose(c, Some(mark), spec_tone_mark(c)) {
                None => None,
                Some(r) => Some(rewrite_model(v, s.update(last, r), key, TransformStep::VowelMark { base: b, result: r })),
            }
        } else {
            None
        }
    }
}

/// The buffer after doubling the plain vowel `lower` at the end of the text
/// into its circumflex form; `None` when the text does not end in that
/// unmarked vowel.
pub open spec fn circumflex_model(v: BufferView, key: char, lower: char) -> Option<BufferView> {
    let s = v.current;
    if s.len() == 0 {
        None
    } else {
        let last = s.last();
        if spec_base_vowel(last) != Some(lower) || spec_vowel_mark(last) is Some {
            None
        } else {
            match spec_recompose(last, Some(VowelMark::Circumflex), spec_tone_mark(last)) {
                None => None,
                Some(nc) => Some(rewrite_model(
                    v,
                    s.update(s.len() - 1, nc),
                    key,
                    TransformStep::VowelMark { base: lower, result: nc },
                )),
            }
        }
    }
}

/// One Telex keystroke: the new buffer state and the engine's verdict.
pub open spec fn telex_step(v: BufferView, key: char) -> (BufferView, TransformResult) {
    if !spec_is_ascii_alpha(key) {
        (v, TransformResult::CommitAndPass(key))
    } else {
        let lower = spec_ascii_lower(key);
        match telex_tone_key(lower) {
            Some(tone) => if has_vowel(v.current) && tone_model(v, key, tone) is Some {
                (tone_model(v, key, tone)->0, TransformResult::ToneApplied)
            } else {
                (push_model(v, key), TransformResult::Transformed)
            },
            None => if lower == 'w' {
                match w_model(v, key) {
                    Some(w) => (w, TransformResult::ToneApplied),
                    None => (push_model(v, key), TransformResult::Transformed),
                }
            } else if (lower == 'a' || lower == 'e' || lower == 'o') && circumflex_model(v, key, lower) is Some {
                (circumflex_model(v, key, lower)->0, TransformResult::ToneApplied)
            } else if lower == 'd' && d_stroke_model(v, key) is Some {
                (d_stroke_model(v, key)->0, TransformResult::ToneApplied)
            } else {
                (push_model(v, key), TransformResult::Transformed)
            },
        }
    }
}

/// `c` with a horn, keeping its base vowel, tone and case (defined for the
/// bases `o` and `u`).
pub open spec fn horned(c: char) -> char {
    spec_recompose(c, Some(VowelMark::Horn), spec_tone_mark(c))->0
}

/// A `w` typed when the last vowel of the composed text is an `o` directly
/// preceded by a `u` horns both vowels (`ươ`), whatever consonants follow
/// the `o`; nothing else of the text changes and the key is recorded.
pub proof fn lemma_w_horns_uo(v: BufferView, key: char, i: int)
    requires
        key == 'w' || key == 'W',
        1 <= i < v.current.len(),
        spec_base_vowel(v.current[i - 1]) == Some('u'),
        spec_base_vowel(v.current[i]) == Some('o'),
        forall|j: int| i < j < v.current.len() ==> !spec_is_vowel(#[trigger] v.current[j]),
    ensures
        telex_step(v, key).1 == TransformResult::ToneApplied,
        telex_step(v, key).0.current == v.current.update(i - 1, horned(v.current[i - 1])).update(
            i,
            horned(v.current[i]),
        ),
        telex_step(v, key).0.raw == v.raw.push(key),
{
    lemma_last_vowel_at(v.current, i);
}

/// A `w` typed when the last vowel of the composed text is an `a`, a `u`, or
/// an `o` not directly preceded by a `u` marks that vowel alone: a breve on
/// `a`, a horn on `u` or `o` (keeping its tone and case), whatever
/// consonants follow it; nothing else of the text changes and the key is
/// recorded.
pub proof fn lemma_w_marks_last_vowel(v: BufferView, key: char, i: int)
    requires
        key == 'w' || key == 'W',
        0 <= i < v.current.len(),
        spec_base_vowel(v.current[i]) == Some('a') || spec_base_vowel(v.current[i]) == Some('u') || (
        spec_base_vowel(v.current[i]) == Some('o') && (i == 0 || spec_base_vowel(v.current[i - 1]) != Some('u'))),
        forall|j: int| i < j < v.current.len() ==> !spec_is_vowel(#[trigger] v.current[j]),
    ensures
        telex_step(v, key).1 == TransformResult::ToneApplied,
        telex_step(v, key).0.current == v.current.update(
            i,
            spec_recompose(
                v.current[i],
                Some(
                    if spec_base_vowel(v.current[i]) == Some('a') {
                        VowelMark::Breve
                    } else {
                        VowelMark::Horn
                    },
                ),
                spec_tone_mark(v.current[i]),
            )->0,
        ),
        telex_step(v, key).0.raw == v.raw.push(key),
{
    lemma_last_vowel_at(v.current, i);
}

/// A `w` typed when the composed text has no vowel, or its last vowel is an
/// `e`, `i` or `y`, is kept as a plain character.
pub proof fn lemma_w_kept(v: BufferView, key: char)
    requires
        key == 'w' || key == 'W',
        forall|i: int|
            0 <= i < v.current.len() && spec_is_vowel(#[trigger] v.current[i]) && (forall|q: int|
                i < q < v.current.len() ==> !spec_is_vowel(#[trigger] v.current[q])) ==> spec_base_vowel(v.current[i])
                != Some('a') && spec_base_vowel(v.current[i]) != Some('o') && spec_base_vowel(v.current[i]) != Some('u'),
    ensures
        telex_step(v, key) == (push_model(v, key), TransformResult::Transformed),
{
    let s = v.current;
    crate::text::lemma_last_in(s, s.len() as int, crate::syllable::vowel_pred());
    let l = last_vowel(s);
    if l >= 0 {
        assert(spec_is_vowel(s[l]));
        assert(forall|q: int| l < q < s.len() ==> !spec_is_vowel(#[trigger] s[q]));
    }
}

/// A Telex tone key (`s`, `f`, `r`, `x`, `j`) typed on text with a vowel puts its
/// tone on the vowel that tone placement picks ([`tone_target`]), keeping
/// that vowel's mark and case, and changes nothing else; on text without a
/// vowel the key is kept as a plain character.
pub proof fn lemma_tone_key_marks_target(v: BufferView, key: char)
    requires
        key == 's' || key == 'f' || key == 'r' || key == 'x' || key == 'j',
    ensures
        tone_target(v.current) matches Some(t) ==> telex_step(v, key).1 == TransformResult::ToneApplied
            && telex_step(v, key).0.current == v.current.update(
            t,
            spec_recompose(v.current[t], spec_vowel_mark(v.current[t]), Some(telex_tone_key(key)->0))->0,
        ),
        tone_target(v.current) is None ==> telex_step(v, key) == (push_model(v, key), TransformResult::Transformed),
{
    lemma_tone_target_found(v.current);
}

/// The Telex input-method engine.
#[derive(Debug, Clone, Default)]
pub struct TelexEngine;

impl TelexEngine {
    /// A new Telex engine.
    pub fn new() -> (r: Self) {
        TelexEngine
    }

    /// Apply the `w` modifier to the last vowel. Returns `true` if a vowel
    /// mark was applied; the buffer is unchanged otherwise.
    fn apply_w(&self, buffer: &mut CompositionBuffer, key: char) -> (r: bool)
        ensures
            r == w_model(old(buffer)@, key) is Some,
            r ==> final(buffer)@ == w_model(old(buffer)@, key)->0,
            !r ==> final(buffer)@ == old(buffer)@,
            final(buffer).same_identity(*old(buffer)),
            final(buffer).last_keystroke == old(buffer).last_keystroke,
    {
        let chars = chars_of(buffer.current.as_str());
        let last = match find_last_vowel(&chars) {
            Some(i) => i,
            None => return false,
        };
        let last_base = match base_vowel(chars[last]) {
            Some(b) => b,
            None => return false,
        };
        let mut new_chars = chars.clone();
        assert(new_chars@ == chars@);
        let result_char;
        if last_base == 'o' {
            if last > 0 && base_vowel(chars[last - 1]) == Some('u') {
                let prev = match recompose(chars[last - 1], Some(VowelMark::Horn), tone_mark_of(chars[last - 1])) {
                    Some(x) => x,
                    None => return false,
                };
                new_chars.set(last - 1, prev);
            }
            result_char = match recompose(chars[last], Some(VowelMark::Horn), tone_mark_of(chars[last])) {
                Some(x) => x,
                None => return false,
            };
            new_chars.set(last, result_char);
        } else if last_base == 'u' {
            result_char = match recompose(chars[last], Some(VowelMark::Horn), tone_mark_of(chars[last])) {
                Some(x) => x,
                None => return false,
            };
            new_chars.set(last, result_char);
        } else if last_base == 'a' {
            result_char = match recompose(chars[last], Some(VowelMark::Breve), tone_mark_of(chars[last])) {
                Some(x) => x,
                None => return false,
            };
            new_chars.set(last, result_char);
        } else {
            return false;
        }
        rewrite(buffer, &new_chars, key, TransformStep::VowelMark { base: last_base, result: result_char });
        true
    }

    /// Apply a circumflex when a plain vowel is doubled (`aa` → â, `ee` → ê,
    /// `oo` → ô); `lower` is the lowercased key. Returns `true` if a mark was
    /// applied; the buffer is unchanged otherwise.
    fn apply_circumflex_double(&self, buffer: &mut CompositionBuffer, key: char, lower: char) -> (r: bool)
        ensures
            r == circumflex_model(old(buffer)@, key, lower) is Some,
            r ==> final(buffer)@ == circumflex_model(old(buffer)@, key, lower)->0,
            !r ==> final(buffer)@ == old(buffer)@,
            final(buffer).same_identity(*old(buffer)),
            final(buffer).last_keystroke == old(buffer).last_keystroke,
    {
        let mut chars = chars_of(buffer.current.as_str());
        let n = chars.len();
        if n == 0 {
            return false;
        }
        let last = chars[n - 1];
        if base_vowel(last) != Some(lower) || vowel_mark_of(last).is_some() {
            return false;
        }
        let new_c = match recompose(last, Some(VowelMark::Circumflex), tone_mark_of(last)) {
            Some(x) => x,
            None => return false,
        };
        chars.set(n - 1, new_c);
        rewrite(buffer, &chars, key, TransformStep::VowelMark { base: lower, result: new_c });
        true
    }
}

impl InputMethodEngine for TelexEngine {
    open spec fn step(&self, before: BufferView, key: char) -> (BufferView, TransformResult) {
        telex_step(before, key)
    }

    open spec fn display_name(&self) -> Seq<char> {
        "Telex"@
    }

    open spec fn composable_start(&self, c: char) -> bool {
        spec_is_ascii_alpha(c)
    }

    fn process_key(&self, buffer: &mut CompositionBuffer, key: char) -> (r: TransformResult) {
        // Non-letter keys (space, punctuation, digits) end the composition.
        if !is_ascii_alpha(key) {
            return TransformResult::CommitAndPass(key);
        }
        let lower = ascii_lower(key);
        if let Some(tone) = tone_for_key(lower) {
            if buffer_has_vowel(buffer) && apply_tone(buffer, key, tone) {
                return TransformResult::ToneApplied;
            }
            buffer.push_key(key);
            return TransformResult::Transformed;
        }
        if lower == 'w' {
            if self.apply_w(buffer, key) {
                return TransformResult::ToneApplied;
            }
            buffer.push_key(key);
            return TransformResult::Transformed;
        }
        if (lower == 'a' || lower == 'e' || lower == 'o') && self.apply_circumflex_double(buffer, key, lower) {
            return TransformResult::ToneApplied;
        }
        if lower == 'd' && apply_d_stroke(buffer, key) {
            return TransformResult::ToneApplied;
        }
        buffer.push_key(key);
        TransformResult::Transformed
    }

    fn name(&self) -> (r: &str) {
        let r = "Telex";
        proof {
            reveal_strlit("Telex");
        }
        r
    }

    fn is_composable_start(&self, c: char) -> (r: bool) {
        is_ascii_alpha(c)
    }
}

} // verus!
