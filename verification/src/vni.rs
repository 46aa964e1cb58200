//! VNI input-method engine.
//!
//! Diacritics are typed with number keys after a base character:
//!
//! - tone marks, placed on the tone-bearing nucleus vowel:
//!   `1` = sắc, `2` = huyền, `3` = hỏi, `4` = ngã, `5` = nặng;
//! - vowel marks on the last vowel: `6` = circumflex on `a/e/o`, horn on
//!   `u`; `7` = horn on `o/u` (and `uo` → ươ); `8` = breve on `a`;
//! - consonant mark: `9` after `d` → đ.
//!
//! A modifier that cannot apply is kept verbatim; letters are base
//! characters; anything else ends the composition.

use vstd::prelude::*;

use crate::buffer::{push_model, BufferView, CompositionBuffer};
use crate::marks::{
    apply_d_stroke, apply_tone, buffer_has_vowel, d_stroke_model, find_last_vowel, has_vowel,
    last_vowel, lemma_last_vowel_at, recompose, rewrite, rewrite_model, spec_recompose, tone_model,
};
use crate::syllable::{base_vowel, spec_base_vowel, spec_is_vowel, spec_tone_mark, spec_vowel_mark, tone_mark_of};
use crate::tone::{lemma_tone_target_found, tone_target};
use crate::text::{is_ascii_alpha, spec_is_ascii_alpha, chars_of};
use crate::telex::horned;
use crate::{InputMethodEngine, ToneMark, TransformResult, TransformStep, VowelMark};

verus! {

/// The vowel-mark category selected by a VNI number key; the concrete mark
/// depends on the vowel it lands on.
#[derive(Debug, Clone, Copy, PartialEq, Eq, Structural)]
pub enum VniVowelMark {
    /// Key `6`: circumflex on `a`/`e`/`o`, horn on `u`.
    CircumflexOrHorn,
    /// Key `7`: horn on `o`/`u`.
    Horn,
    /// Key `8`: breve on `a`.
    Breve,
}

/// A VNI modifier produced by a single number key.
#[derive(Debug, Clone, Copy, PartialEq, Eq, Structural)]
pub enum VniModifier {
    /// A tone mark: `1`..=`5`.
    Tone(ToneMark),
    /// A vowel mark: `6`, `7`, `8`.
    VowelMark(VniVowelMark),
    /// The `đ` consonant mark: `9`.
    ConsonantMark,
}

/// The modifier of a VNI number key.
pub open spec fn vni_key(c: char) -> Option<VniModifier> {
    match c {
        '1' => Some(VniModifier::Tone(ToneMark::Sac)),
        '2' => Some(VniModifier::Tone(ToneMark::Huyen)),
        '3' => Some(VniModifier::Tone(ToneMark::Hoi)),
        '4' => Some(VniModifier::Tone(ToneMark::Nga)),
        '5' => Some(VniModifier::Tone(ToneMark::Nang)),
        '6' => Some(VniModifier::VowelMark(VniVowelMark::CircumflexOrHorn)),
        '7' => Some(VniModifier::VowelMark(VniVowelMark::Horn)),
        '8' => Some(VniModifier::VowelMark(VniVowelMark::Breve)),
        '9' => Some(VniModifier::ConsonantMark),
        _ => None,
    }
}

fn modifier_for_key(c: char) -> (r: Option<VniModifier>)
    ensures
        r == vni_key(c),
{
    match c {
        '1' => Some(VniModifier::Tone(ToneMark::Sac)),
        '2' => Some(VniModifier::Tone(ToneMark::Huyen)),
        '3' => Some(VniModifier::Tone(ToneMark::Hoi)),
        '4' => Some(VniModifier::Tone(ToneMark::Nga)),
        '5' => Some(VniModifier::Tone(ToneMark::Nang)),
        '6' => Some(VniModifier::VowelMark(VniVowelMark::CircumflexOrHorn)),
        '7' => Some(VniModifier::VowelMark(VniVowelMark::Horn)),
        '8' => Some(VniModifier::VowelMark(VniVowelMark::Breve)),
        '9' => Some(VniModifier::ConsonantMark),
        _ => None,
    }
}

/// The concrete vowel mark a VNI vowel-mark key puts on a base vowel.
pub open spec fn spec_resolve_vowel_mark(base: char, mark: VniVowelMark) -> Option<VowelMark> {
    match (mark, base) {
        (VniVowelMark::CircumflexOrHorn, 'a') => Some(VowelMark::Circumflex),
        (VniVowelMark::CircumflexOrHorn, 'e') => Some(VowelMark::Circumflex),
        (VniVowelMark::CircumflexOrHorn, 'o') => Some(VowelMark::Circumflex),
        (VniVowelMark::CircumflexOrHorn, 'u') => Some(VowelMark::Horn),
        (VniVowelMark::Horn, 'o') => Some(VowelMark::Horn),
        (VniVowelMark::Horn, 'u') => Some(VowelMark::Horn),
        (VniVowelMark::Breve, 'a') => Some(VowelMark::Breve),
        _ => None,
    }
}

/// Resolve the concrete vowel mark a VNI key applies to a base vowel (the
/// key 6/7/8 ambiguity rules); `None` when the key does not apply to it.
fn resolve_vowel_mark(base: char, mark: VniVowelMark) -> (r: Option<VowelMark>)
    ensures
        r == spec_resolve_vowel_mark(base, mark),
{
    match (mark, base) {
        (VniVowelMark::CircumflexOrHorn, 'a') => Some(VowelMark::Circumflex),
        (VniVowelMark::CircumflexOrHorn, 'e') => Some(VowelMark::Circumflex),
        (VniVowelMark::CircumflexOrHorn, 'o') => Some(VowelMark::Circumflex),
        (VniVowelMark::CircumflexOrHorn, 'u') => Some(VowelMark::Horn),
        (VniVowelMark::Horn, 'o') => Some(VowelMark::Horn),
        (VniVowelMark::Horn, 'u') => Some(VowelMark::Horn),
        (VniVowelMark::Breve, 'a') => Some(VowelMark::Breve),
        _ => None,
    }
}

/// The buffer after a vowel-mark key on the last vowel of the text (key `7`
/// on an `o` preceded by `u` horns both); `None` when the key does not apply.
pub open spec fn vni_mark_model(v: BufferView, key: char, vmark: VniVowelMark) -> Option<BufferView> {
    let s = v.current;
    let last = last_vowel(s);
    if last < 0 {
        None
    } else {
        let c = s[last];
        let b = spec_base_vowel(c)->0;
        match spec_resolve_vowel_mark(b, vmark) {
            None => None,
            Some(mark) => {
                let double = vmark == VniVowelMark::Horn && b == 'o' && last > 0
                    && spec_base_vowel(s[last - 1]) == Some('u');
                let s1 = if double {
                    match spec_recompose(s[last - 1], Some(VowelMark::Horn), spec_tone_mark(s[last - 1])) {
                        Some(p) => Some(s.update(last - 1, p)),
                        None => None,
                    }
                } else {
                    Some(s)
                };
                match s1 {
                    None => None,
                    Some(s1) => match spec_recompose(c, Some(mark), spec_tone_mark(c)) {
                        None => None,
                        Some(r) => Some(rewrite_model(v, s1.update(last, r), key, TransformStep::VowelMark { base: b, result: r })),
                    },
                }
            },
        }
    }
}

/// One VNI keystroke: the new buffer state and the engine's verdict.
pub open spec fn vni_step(v: BufferView, key: char) -> (BufferView, TransformResult) {
    match vni_key(key) {
        Some(VniModifier::Tone(tone)) => if has_vowel(v.current) && tone_model(v, key, tone) is Some {
            (tone_model(v, key, tone)->0, TransformResult::ToneApplied)
        } else {
            (push_model(v, key), TransformResult::Transformed)
        },
        Some(VniModifier::VowelMark(vm)) => match vni_mark_model(v, key, vm) {
            Some(w) => (w, TransformResult::ToneApplied),
            None => (push_model(v, key), TransformResult::Transformed),
        },
        Some(VniModifier::ConsonantMark) => match d_stroke_model(v, key) {
            Some(w) => (w, TransformResult::ToneApplied),
            None => (push_model(v, key), TransformResult::Transformed),
        },
        None => if spec_is_ascii_alpha(key) {
            (push_model(v, key), TransformResult::Transformed)
        } else {
            (v, TransformResult::CommitAndPass(key))
        },
    }
}

/// Key `7` typed when the last vowel of the composed text is an `o` directly
/// preceded by a `u` horns both vowels (`ươ`), whatever consonants follow
/// the `o`; nothing else of the text changes and the key is recorded.
pub proof fn lemma_seven_horns_uo(v: BufferView, i: int)
    requires
        1 <= i < v.current.len(),
        spec_base_vowel(v.current[i - 1]) == Some('u'),
        spec_base_vowel(v.current[i]) == Some('o'),
        forall|j: int| i < j < v.current.len() ==> !spec_is_vowel(#[trigger] v.current[j]),
    ensures
        vni_step(v, '7').1 == TransformResult::ToneApplied,
        vni_step(v, '7').0.current == v.current.update(i - 1, horned(v.current[i - 1])).update(
            i,
            horned(v.current[i]),
        ),
        vni_step(v, '7').0.raw == v.raw.push('7'),
{
    lemma_last_vowel_at(v.current, i);
}

/// The vowel mark VNI key `k` gives a vowel with base `b`: `6` a
/// circumflex on `a`, `e`, `o` and a horn on `u`; `7` a horn on `o` and
/// `u`; `8` a breve on `a`; `None` for any other pair.
pub open spec fn vni_mark_for(k: char, b: char) -> Option<VowelMark> {
    if k == '6' && (b == 'a' || b == 'e' || b == 'o') {
        Some(VowelMark::Circumflex)
    } else if (k == '6' && b == 'u') || (k == '7' && (b == 'o' || b == 'u')) {
        Some(VowelMark::Horn)
    } else if k == '8' && b == 'a' {
        Some(VowelMark::Breve)
    } else {
        None
    }
}

/// A vowel-mark key (`6`, `7`, `8`) marks the last vowel of the composed
/// text as [`vni_mark_for`] says, keeping its tone and case, whatever
/// consonants follow it (a `7` on an `o` right after a `u` also horns the
/// `u`, see [`lemma_seven_horns_uo`]); when the key gives that vowel no
/// mark, the key is kept as a plain character.
pub proof fn lemma_vni_mark_last_vowel(v: BufferView, k: char, i: int)
    requires
        k == '6' || k == '7' || k == '8',
        0 <= i < v.current.len(),
        spec_is_vowel(v.current[i]),
        forall|j: int| i < j < v.current.len() ==> !spec_is_vowel(#[trigger] v.current[j]),
        !(k == '7' && spec_base_vowel(v.current[i]) == Some('o') && i > 0 && spec_base_vowel(v.current[i - 1])
            == Some('u')),
    ensures
        vni_mark_for(k, spec_base_vowel(v.current[i])->0) matches Some(m) ==> vni_step(v, k).1
            == TransformResult::ToneApplied && vni_step(v, k).0.current == v.current.update(
            i,
            spec_recompose(v.current[i], Some(m), spec_tone_mark(v.current[i]))->0,
        ),
        vni_mark_for(k, spec_base_vowel(v.current[i])->0) is None ==> vni_step(v, k).1
            == TransformResult::Transformed && vni_step(v, k).0.current == v.current.push(k),
        vni_step(v, k).0.raw == v.raw.push(k),
{
    lemma_last_vowel_at(v.current, i);
}

/// A VNI tone key (`1` to `5`, giving `tone`) typed on text with a vowel puts its
/// tone on the vowel that tone placement picks ([`tone_target`]), keeping
/// that vowel's mark and case, and changes nothing else; on text without a
/// vowel the key is kept as a plain character.
pub proof fn lemma_tone_digit_marks_target(v: BufferView, key: char, tone: ToneMark)
    requires
        vni_key(key) == Some(VniModifier::Tone(tone)),
    ensures
        tone_target(v.current) matches Some(t) ==> vni_step(v, key).1 == TransformResult::ToneApplied
            && vni_step(v, key).0.current == v.current.update(
            t,
            spec_recompose(v.current[t], spec_vowel_mark(v.current[t]), Some(tone))->0,
        ),
        tone_target(v.current) is None ==> vni_step(v, key) == (push_model(v, key), TransformResult::Transformed),
{
    lemma_tone_target_found(v.current);
}

/// The VNI input-method engine.
#[derive(Debug, Clone, Default)]
pub struct VniEngine;

impl VniEngine {
    /// A new VNI engine.
    pub fn new() -> (r: Self) {
        VniEngine
    }

    /// Apply the vowel mark selected by key `6`, `7` or `8` to the last vowel.
    /// Returns `true` if a mark was applied; the buffer is unchanged otherwise.
    fn apply_vowel_mark(&self, buffer: &mut CompositionBuffer, key: char, vmark: VniVowelMark) -> (r: bool)
        ensures
            r == vni_mark_model(old(buffer)@, key, vmark) is Some,
            r ==> final(buffer)@ == vni_mark_model(old(buffer)@, key, vmark)->0,
            !r ==> final(buffer)@ == old(buffer)@,
            final(buffer).same_identity(*old(buffer)),
            final(buffer).last_keystroke == old(buffer).last_keystroke,
    {
        let chars = chars_of(buffer.current.as_str());
        let last = match find_last_vowel(&chars) {
            Some(i) => i,
            None => return false,
        };
        let last_base = match base_vowel(chars[last]) {
            Some(b) => b,
            None => return false,
        };
        let mark = match resolve_vowel_mark(last_base, vmark) {
            Some(m) => m,
            None => return false,
        };
        let mut new_chars = chars.clone();
        assert(new_chars@ == chars@);
        if vmark == VniVowelMark::Horn && last_base == 'o' && last > 0 && base_vowel(chars[last - 1]) == Some('u') {
            let prev = match recompose(chars[last - 1], Some(VowelMark::Horn), tone_mark_of(chars[last - 1])) {
                Some(x) => x,
                None => return false,
            };
            new_chars.set(last - 1, prev);
        }
        let result_char = match recompose(chars[last], Some(mark), tone_mark_of(chars[last])) {
            Some(x) => x,
            None => return false,
        };
        new_chars.set(last, result_char);
        rewrite(buffer, &new_chars, key, TransformStep::VowelMark { base: last_base, result: result_char });
        true
    }
}

impl InputMethodEngine for VniEngine {
    open spec fn step(&self, before: BufferView, key: char) -> (BufferView, TransformResult) {
        vni_step(before, key)
    }

    open spec fn display_name(&self) -> Seq<char> {
        "VNI"@
    }

    open spec fn composable_start(&self, c: char) -> bool {
        spec_is_ascii_alpha(c)
    }

    fn process_key(&self, buffer: &mut CompositionBuffer, key: char) -> (r: TransformResult) {
        if let Some(modifier) = modifier_for_key(key) {
            match modifier {
                VniModifier::Tone(tone) => {
                    if buffer_has_vowel(buffer) && apply_tone(buffer, key, tone) {
                        return TransformResult::ToneApplied;
                    }
                    buffer.push_key(key);
                    return TransformResult::Transformed;
                },
                VniModifier::VowelMark(vmark) => {
                    if self.apply_vowel_mark(buffer, key, vmark) {
                        return TransformResult::ToneApplied;
                    }
                    buffer.push_key(key);
                    return TransformResult::Transformed;
                },
                VniModifier::ConsonantMark => {
                    if apply_d_stroke(buffer, key) {
                        return TransformResult::ToneApplied;
                    }
                    buffer.push_key(key);
                    return TransformResult::Transformed;
                },
            }
        }
        if is_ascii_alpha(key) {
            buffer.push_key(key);
            return TransformResult::Transformed;
        }
        // Anything else (space, punctuation, the digit 0) ends the composition.
        TransformResult::CommitAndPass(key)
    }

    fn name(&self) -> (r: &str) {
        let r = "VNI";
        proof {
            reveal_strlit("VNI");
        }
        r
    }

    fn is_composable_start(&self, c: char) -> (r: bool) {
        is_ascii_alpha(c)
    }
}

} // verus!
