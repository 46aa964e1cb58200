//! Vietnamese tone-mark placement.
//!
//! A syllable carries at most one tone mark, rendered on exactly one vowel of
//! its first contiguous run of vowels (the nucleus). The rules, in priority
//! order:
//!
//! 1. a quality-marked vowel `ơ, ô, â, ă, ê` takes the tone (`ư` is not in
//!    this set, so in `ươ` the tone lands on `ơ`);
//! 2. a nucleus of three or more vowels puts it on the middle vowel;
//! 3. two vowels followed by a coda put it on the first vowel;
//! 4. two vowels with no coda put it on the second vowel;
//! 5. a single vowel takes it.
//!
//! Positions are char indices into the syllable, not byte offsets.

use vstd::prelude::*;

use crate::syllable::{
    base_vowel, glyph_of, glyph_parts, non_vowel_pred, scan_vowels, spec_base_vowel, spec_is_vowel, spec_vowel_mark, vowel_mark_of,
    vowel_pred,
};
use crate::text::{chars_of, first_in, lemma_first_in, lemma_first_in_agree, lower_of};
use crate::{ToneMark, VowelMark};

verus! {

/// The quality-marked vowels `ơ, ô, â, ă, ê` (any tone, any case).
pub open spec fn spec_is_priority_vowel(c: char) -> bool {
    match (spec_base_vowel(c), spec_vowel_mark(c)) {
        (Some('o'), Some(VowelMark::Circumflex)) => true,
        (Some('o'), Some(VowelMark::Horn)) => true,
        (Some('a'), Some(VowelMark::Circumflex)) => true,
        (Some('a'), Some(VowelMark::Breve)) => true,
        (Some('e'), Some(VowelMark::Circumflex)) => true,
        _ => false,
    }
}

/// The priority predicate as a value, for index scans.
pub open spec fn priority_pred() -> spec_fn(char) -> bool {
    |c: char| spec_is_priority_vowel(c)
}

/// The char index of the vowel of `s` that carries the tone, following the
/// placement rules; `None` when `s` has no vowel.
pub open spec fn tone_target(s: Seq<char>) -> Option<int> {
    let f = first_in(s, 0, s.len() as int, vowel_pred());
    if f >= s.len() {
        None
    } else {
        let e = first_in(s, f, s.len() as int, non_vowel_pred());
        let p = first_in(s, f, e, priority_pred());
        if p < e {
            Some(p)
        } else if e - f == 1 {
            Some(f)
        } else if e - f == 2 {
            if e < s.len() { Some(f) } else { Some(f + 1) }
        } else {
            Some(f + (e - f) / 2)
        }
    }
}

/// Tone placement ignores letter case: two syllables that spell the same
/// letters up to case (the same char at each position once lowercased) put
/// the tone at the same position, so an uppercase `Â, Ê, Ô, Ơ, Ă` in the
/// nucleus takes the tone exactly as its lowercase form does.
pub proof fn lemma_tone_target_ignores_case(s: Seq<char>, t: Seq<char>)
    requires
        s.len() == t.len(),
        forall|j: int| 0 <= j < s.len() ==> lower_of(#[trigger] s[j]) == lower_of(t[j]),
    ensures
        tone_target(s) == tone_target(t),
{
    let n = s.len() as int;
    assert forall|j: int| 0 <= j < n implies vowel_pred()(#[trigger] s[j]) == vowel_pred()(t[j])
        && non_vowel_pred()(s[j]) == non_vowel_pred()(t[j]) && priority_pred()(s[j]) == priority_pred()(t[j]) by {
        assert(lower_of(s[j]) == lower_of(t[j]));
    }
    lemma_first_in_agree(s, t, 0, n, vowel_pred());
    let f = first_in(s, 0, n, vowel_pred());
    lemma_first_in(s, 0, n, vowel_pred());
    if f < n {
        lemma_first_in_agree(s, t, f, n, non_vowel_pred());
        let e = first_in(s, f, n, non_vowel_pred());
        lemma_first_in(s, f, n, non_vowel_pred());
        lemma_first_in_agree(s, t, f, e, priority_pred());
    }
}

/// `s[f..e]` is the nucleus of `s`: its first run of vowels, preceded only by
/// consonants and ending at the end of `s` or at a consonant.
pub open spec fn is_nucleus(s: Seq<char>, f: int, e: int) -> bool {
    &&& 0 <= f < e <= s.len()
    &&& forall|j: int| 0 <= j < f ==> !spec_is_vowel(#[trigger] s[j])
    &&& forall|j: int| f <= j < e ==> spec_is_vowel(#[trigger] s[j])
    &&& e < s.len() ==> !spec_is_vowel(s[e])
}

proof fn lemma_nucleus_bounds(s: Seq<char>, f: int, e: int)
    requires
        is_nucleus(s, f, e),
    ensures
        first_in(s, 0, s.len() as int, vowel_pred()) == f,
        first_in(s, f, s.len() as int, non_vowel_pred()) == e,
{
    let n = s.len() as int;
    lemma_first_in(s, 0, n, vowel_pred());
    let a = first_in(s, 0, n, vowel_pred());
    if a < f {
        assert(vowel_pred()(s[a]));
    }
    if a > f {
        assert(!vowel_pred()(s[f]));
    }
    lemma_first_in(s, f, n, non_vowel_pred());
    let b = first_in(s, f, n, non_vowel_pred());
    if b < e {
        assert(non_vowel_pred()(s[b]));
    }
    if b > e {
        assert(!non_vowel_pred()(s[e]));
    }
}

/// Rule 1: the first quality-marked vowel of the nucleus (`ơ, ô, â, ă, ê`,
/// whatever its tone) takes the tone.
pub proof fn lemma_tone_on_marked_vowel(s: Seq<char>, f: int, e: int, p: int)
    requires
        is_nucleus(s, f, e),
        f <= p < e,
        ({
            let (b, m) = (spec_base_vowel(s[p]), spec_vowel_mark(s[p]));
            (b == Some('o') && (m == Some(VowelMark::Circumflex) || m == Some(VowelMark::Horn))) || (b == Some('a')
                && (m == Some(VowelMark::Circumflex) || m == Some(VowelMark::Breve))) || (b == Some('e') && m == Some(
                VowelMark::Circumflex,
            ))
        }),
        forall|q: int|
            f <= q < p ==> !({
                let (b, m) = (spec_base_vowel(#[trigger] s[q]), spec_vowel_mark(s[q]));
                (b == Some('o') && (m == Some(VowelMark::Circumflex) || m == Some(VowelMark::Horn))) || (b == Some(
                    'a',
                ) && (m == Some(VowelMark::Circumflex) || m == Some(VowelMark::Breve))) || (b == Some('e') && m
                    == Some(VowelMark::Circumflex))
            }),
    ensures
        tone_target(s) == Some(p),
{
    lemma_nucleus_bounds(s, f, e);
    lemma_first_in(s, f, e, priority_pred());
    let a = first_in(s, f, e, priority_pred());
    if a < p {
        assert(priority_pred()(s[a]));
        assert(spec_is_priority_vowel(s[a]));
    }
    if a > p {
        assert(!priority_pred()(s[p]));
    }
}

/// Rules 2 to 5, for a nucleus without a quality-marked vowel: one vowel
/// takes the tone; of two, the first when a consonant follows and the second
/// otherwise; of three or more, the middle one.
pub proof fn lemma_tone_by_position(s: Seq<char>, f: int, e: int)
    requires
        is_nucleus(s, f, e),
        forall|q: int|
            f <= q < e ==> !({
                let (b, m) = (spec_base_vowel(#[trigger] s[q]), spec_vowel_mark(s[q]));
                (b == Some('o') && (m == Some(VowelMark::Circumflex) || m == Some(VowelMark::Horn))) || (b == Some(
                    'a',
                ) && (m == Some(VowelMark::Circumflex) || m == Some(VowelMark::Breve))) || (b == Some('e') && m
                    == Some(VowelMark::Circumflex))
            }),
    ensures
        e - f == 1 ==> tone_target(s) == Some(f),
        e - f == 2 && e < s.len() ==> tone_target(s) == Some(f),
        e - f == 2 && e == s.len() ==> tone_target(s) == Some(f + 1),
        e - f >= 3 ==> tone_target(s) == Some(f + (e - f) / 2),
{
    lemma_nucleus_bounds(s, f, e);
    lemma_first_in(s, f, e, priority_pred());
    let a = first_in(s, f, e, priority_pred());
    if a < e {
        assert(priority_pred()(s[a]));
        assert(spec_is_priority_vowel(s[a]));
    }
}

/// A syllable without a vowel has no tone position.
pub proof fn lemma_no_vowel_no_tone(s: Seq<char>)
    requires
        forall|j: int| 0 <= j < s.len() ==> !spec_is_vowel(#[trigger] s[j]),
    ensures
        tone_target(s) is None,
{
    lemma_first_in(s, 0, s.len() as int, vowel_pred());
    let a = first_in(s, 0, s.len() as int, vowel_pred());
    if a < s.len() {
        assert(vowel_pred()(s[a]));
    }
}

/// A syllable has a tone position exactly when it has a vowel; the position
/// is a vowel of the syllable, and that vowel can carry any tone with its
/// own mark.
pub proof fn lemma_tone_target_found(s: Seq<char>)
    ensures
        tone_target(s) is Some <==> exists|j: int| 0 <= j < s.len() && spec_is_vowel(#[trigger] s[j]),
        tone_target(s) matches Some(t) ==> 0 <= t < s.len() && spec_is_vowel(s[t]) && forall|tone: ToneMark|
            #[trigger] glyph_of(spec_base_vowel(s[t])->0, spec_vowel_mark(s[t]), Some(tone)) is Some,
{
    let n = s.len() as int;
    lemma_first_in(s, 0, n, vowel_pred());
    let f = first_in(s, 0, n, vowel_pred());
    if f < n {
        assert(vowel_pred()(s[f]));
        let e = first_in(s, f, n, non_vowel_pred());
        lemma_first_in(s, f, n, non_vowel_pred());
        assert(e > f) by {
            assert(!non_vowel_pred()(s[f]));
        }
        let p = first_in(s, f, e, priority_pred());
        lemma_first_in(s, f, e, priority_pred());
        let t = tone_target(s)->0;
        assert(f <= t < e);
        assert(!non_vowel_pred()(s[t]));
        let c = crate::text::lower_of(s[t]);
        assert forall|tone: ToneMark|
            #[trigger] glyph_of(spec_base_vowel(s[t])->0, spec_vowel_mark(s[t]), Some(tone)) is Some by {
            lemma_glyph_recomposable(c, tone);
        }
    } else {
        assert forall|j: int| 0 <= j < n implies !spec_is_vowel(#[trigger] s[j]) by {
            assert(!vowel_pred()(s[j]));
        }
    }
}

/// Every vowel glyph's base and mark combine with any tone.
proof fn lemma_glyph_recomposable(c: char, tone: ToneMark)
    ensures
        glyph_parts(c) matches Some((b, m, _)) ==> glyph_of(b, m, Some(tone)) is Some,
{
}

/// Returns `true` if `c` is one of the quality-marked vowels that take
/// tone-placement priority: `ơ, ô, â, ă, ê`.
fn is_priority_vowel(c: char) -> (r: bool)
    ensures
        r == spec_is_priority_vowel(c),
{
    match (base_vowel(c), vowel_mark_of(c)) {
        (Some('o'), Some(VowelMark::Circumflex)) => true,
        (Some('o'), Some(VowelMark::Horn)) => true,
        (Some('a'), Some(VowelMark::Circumflex)) => true,
        (Some('a'), Some(VowelMark::Breve)) => true,
        (Some('e'), Some(VowelMark::Circumflex)) => true,
        _ => false,
    }
}

/// Tone placement following Vietnamese phonology rules.
pub struct TonePlacement;

impl TonePlacement {
    /// The char index of the vowel of `syllable` that should carry the tone
    /// mark, or `None` if the syllable contains no vowel.
    pub fn find_tone_target(syllable: &str) -> (r: Option<usize>)
        ensures
            match r {
                Some(i) => tone_target(syllable@) == Some(i as int),
                None => tone_target(syllable@) is None,
            },
    {
        let chars = chars_of(syllable);
        Self::tone_target_in(&chars)
    }

    /// [`find_tone_target`](Self::find_tone_target) on a char sequence.
    pub(crate) fn tone_target_in(chars: &Vec<char>) -> (r: Option<usize>)
        ensures
            match r {
                Some(i) => tone_target(chars@) == Some(i as int) && i < chars@.len(),
                None => tone_target(chars@) is None,
            },
    {
        let n = chars.len();
        let f = scan_vowels(chars, 0, n, true);
        if f == n {
            return None;
        }
        let e = scan_vowels(chars, f, n, false);
        proof {
            lemma_first_in(chars@, 0, n as int, vowel_pred());
            lemma_first_in(chars@, f as int, n as int, non_vowel_pred());
            assert(vowel_pred()(chars@[f as int]));
        }
        let mut p = f;
        while p < e && !is_priority_vowel(chars[p])
            invariant
                f <= p <= e <= n == chars.len(),
                first_in(chars@, f as int, e as int, priority_pred())
                    == first_in(chars@, p as int, e as int, priority_pred()),
            decreases e - p,
        {
            assert(!priority_pred()(chars@[p as int]));
            p += 1;
        }
        if p < e {
            assert(priority_pred()(chars@[p as int]));
            return Some(p);
        }
        let len = e - f;
        if len == 1 {
            Some(f)
        } else if len == 2 {
            if e < n { Some(f) } else { Some(f + 1) }
        } else {
            Some(f + len / 2)
        }
    }
}

} // verus!
