//! Mark application shared by the input-method engines: recomposing a vowel
//! glyph with a new mark or tone, placing a tone on the nucleus, and the
//! `đ` consonant mark.

use vstd::prelude::*;

use crate::buffer::{record_model, BufferView, CompositionBuffer};
use crate::syllable::{
    base_vowel, compose_vowel, glyph_of, scan_vowels, spec_base_vowel, spec_is_vowel,
    spec_tone_mark, spec_vowel_mark, vowel_mark_of, vowel_pred,
};
use crate::text::{
    char_is_uppercase, chars_of, first_in, is_upper, last_in, lemma_first_in, lemma_last_in,
    spec_ascii_lower, string_of, to_uppercase_head, upper_of, ascii_lower,
};
use crate::tone::{tone_target, TonePlacement};
use crate::{ToneMark, TransformStep, VowelMark};

verus! {

/// `orig` rebuilt with a new vowel mark and tone, keeping its letter case;
/// `None` when `orig` is not a vowel or the combination does not exist.
pub open spec fn spec_recompose(orig: char, mark: Option<VowelMark>, tone: Option<ToneMark>) -> Option<char> {
    match spec_base_vowel(orig) {
        None => None,
        Some(b) => match glyph_of(b, mark, tone) {
            None => None,
            Some(g) => if is_upper(orig) { Some(upper_of(g)) } else { Some(g) },
        },
    }
}

/// Recompose an existing vowel glyph with a new vowel mark and tone,
/// preserving its letter case.
pub fn recompose(orig: char, mark: Option<VowelMark>, tone: Option<ToneMark>) -> (r: Option<char>)
    ensures
        r == spec_recompose(orig, mark, tone),
{
    let base = match base_vowel(orig) {
        Some(b) => b,
        None => return None,
    };
    let composed = match compose_vowel(base, mark, tone) {
        Some(c) => c,
        None => return None,
    };
    if char_is_uppercase(orig) {
        Some(to_uppercase_head(composed))
    } else {
        Some(composed)
    }
}

/// The composed text holds at least one vowel.
pub open spec fn has_vowel(s: Seq<char>) -> bool {
    first_in(s, 0, s.len() as int, vowel_pred()) < s.len()
}

/// `true` if the composed text of `buffer` contains a vowel.
pub fn buffer_has_vowel(buffer: &CompositionBuffer) -> (r: bool)
    ensures
        r == has_vowel(buffer.current@),
{
    let chars = chars_of(buffer.current.as_str());
    scan_vowels(&chars, 0, chars.len(), true) < chars.len()
}

/// Index of the last vowel of `s`, or `-1`.
pub open spec fn last_vowel(s: Seq<char>) -> int {
    last_in(s, s.len() as int, vowel_pred())
}

/// A vowel with no vowel after it is the last vowel of the text.
pub proof fn lemma_last_vowel_at(s: Seq<char>, i: int)
    requires
        0 <= i < s.len(),
        spec_is_vowel(s[i]),
        forall|j: int| i < j < s.len() ==> !spec_is_vowel(#[trigger] s[j]),
    ensures
        last_vowel(s) == i,
{
    lemma_last_in(s, s.len() as int, vowel_pred());
    let l = last_vowel(s);
    if l > i {
        assert(vowel_pred()(s[l]));
        assert(!spec_is_vowel(s[l]));
    }
    if l < i {
        assert(!vowel_pred()(s[i]));
    }
}

/// Exec form of [`last_vowel`].
pub fn find_last_vowel(chars: &Vec<char>) -> (r: Option<usize>)
    ensures
        match r {
            Some(i) => i as int == last_vowel(chars@) && i < chars@.len() && spec_is_vowel(chars@[i as int]),
            None => last_vowel(chars@) == -1,
        },
{
    let mut i = chars.len();
    while i > 0 && !crate::syllable::is_vietnamese_vowel(chars[i - 1])
        invariant
            i <= chars.len(),
            last_in(chars@, chars@.len() as int, vowel_pred()) == last_in(chars@, i as int, vowel_pred()),
        decreases i,
    {
        assert(!vowel_pred()(chars@[i - 1]));
        i -= 1;
    }
    if i == 0 {
        None
    } else {
        assert(vowel_pred()(chars@[i - 1]));
        Some(i - 1)
    }
}

/// `v` with `cur` as its composed text, `key` appended to the raw input, and
/// `step` recorded.
pub open spec fn rewrite_model(v: BufferView, cur: Seq<char>, key: char, step: TransformStep) -> BufferView {
    record_model(BufferView { current: cur, raw: v.raw.push(key), history: v.history }, step)
}

/// Replace the composed text of `buffer`, append `key` to its raw input and
/// record `step`.
pub fn rewrite(buffer: &mut CompositionBuffer, chars: &Vec<char>, key: char, step: TransformStep)
    ensures
        final(buffer)@ == rewrite_model(old(buffer)@, chars@, key, step),
        final(buffer).same_identity(*old(buffer)),
        final(buffer).last_keystroke == old(buffer).last_keystroke,
{
    buffer.current = string_of(chars.as_slice());
    buffer.raw_input.push(key);
    buffer.record_step(step);
}

/// The buffer after placing `tone` on the tone-bearing vowel of its text
/// (see [`tone_target`]), keeping that vowel's mark; `None` when the text has
/// no vowel.
pub open spec fn tone_model(v: BufferView, key: char, tone: ToneMark) -> Option<BufferView> {
    match tone_target(v.current) {
        None => None,
        Some(t) => {
            let c = v.current[t];
            match spec_recompose(c, spec_vowel_mark(c), Some(tone)) {
                None => None,
                Some(nc) => Some(rewrite_model(
                    v,
                    v.current.update(t, nc),
                    key,
                    TransformStep::ToneMark { tone, target_vowel: nc },
                )),
            }
        },
    }
}

/// Apply a tone mark to the tone-bearing vowel of the composition. Returns
/// `true` if a tone was applied; the buffer is unchanged otherwise.
pub fn apply_tone(buffer: &mut CompositionBuffer, key: char, tone: ToneMark) -> (r: bool)
    ensures
        r == tone_model(old(buffer)@, key, tone) is Some,
        r ==> final(buffer)@ == tone_model(old(buffer)@, key, tone)->0,
        !r ==> final(buffer)@ == old(buffer)@,
        final(buffer).same_identity(*old(buffer)),
        final(buffer).last_keystroke == old(buffer).last_keystroke,
{
    let mut chars = chars_of(buffer.current.as_str());
    let target = match TonePlacement::tone_target_in(&chars) {
        Some(t) => t,
        None => return false,
    };
    let c = chars[target];
    let new_c = match recompose(c, vowel_mark_of(c), Some(tone)) {
        Some(x) => x,
        None => return false,
    };
    chars.set(target, new_c);
    rewrite(buffer, &chars, key, TransformStep::ToneMark { tone, target_vowel: new_c });
    true
}

/// The buffer after turning a trailing `d`/`D` into `đ`/`Đ`; `None` when the
/// text does not end in `d` or `D`.
pub open spec fn d_stroke_model(v: BufferView, key: char) -> Option<BufferView> {
    if v.current.len() == 0 {
        None
    } else {
        let last = v.current.last();
        if spec_ascii_lower(last) != 'd' {
            None
        } else {
            let nc = if is_upper(last) { 'Đ' } else { 'đ' };
            Some(rewrite_model(
                v,
                v.current.update(v.current.len() - 1, nc),
                key,
                TransformStep::ConsonantMark { base: 'd', result: nc },
            ))
        }
    }
}

/// Turn a trailing `d`/`D` into `đ`/`Đ`. Returns `true` if the mark was
/// applied; the buffer is unchanged otherwise.
pub fn apply_d_stroke(buffer: &mut CompositionBuffer, key: char) -> (r: bool)
    ensures
        r == d_stroke_model(old(buffer)@, key) is Some,
        r ==> final(buffer)@ == d_stroke_model(old(buffer)@, key)->0,
        !r ==> final(buffer)@ == old(buffer)@,
        final(buffer).same_identity(*old(buffer)),
        final(buffer).last_keystroke == old(buffer).last_keystroke,
{
    let mut chars = chars_of(buffer.current.as_str());
    let n = chars.len();
    if n == 0 {
        return false;
    }
    let last = chars[n - 1];
    if ascii_lower(last) != 'd' {
        return false;
    }
    let new_c = if char_is_uppercase(last) { 'Đ' } else { 'đ' };
    chars.set(n - 1, new_c);
    rewrite(buffer, &chars, key, TransformStep::ConsonantMark { base: 'd', result: new_c });
    true
}

} // verus!
