//! Vietnamese vowel glyphs and syllable structure.
//!
//! A Vietnamese syllable has the shape `[onset] nucleus [coda]`, with an
//! optional tone mark on the nucleus. Every vowel glyph is a base vowel
//! (`a e i o u y`), an optional vowel mark and an optional tone; the glyph
//! table below lists the lowercase glyphs, and uppercase input is folded to
//! lowercase (Unicode case mapping) before lookup.

use vstd::prelude::*;

use crate::text::{
    first_in, is_ascii_alpha, lemma_first_in, lower_of, push_char, spec_is_ascii_alpha,
    to_lowercase_head, chars_of, string_of_range,
};
use crate::{ToneMark, VowelMark};

verus! {

/// Decomposition of a lowercase vowel glyph into base, vowel mark and tone.
pub open spec fn glyph_parts(c: char) -> Option<(char, Option<VowelMark>, Option<ToneMark>)> {
    match c {
        'a' => Some(('a', None, None)),
        'à' => Some(('a', None, Some(ToneMark::Huyen))),
        'á' => Some(('a', None, Some(ToneMark::Sac))),
        'ả' => Some(('a', None, Some(ToneMark::Hoi))),
        'ã' => Some(('a', None, Some(ToneMark::Nga))),
        'ạ' => Some(('a', None, Some(ToneMark::Nang))),
        'ă' => Some(('a', Some(VowelMark::Breve), None)),
        'ằ' => Some(('a', Some(VowelMark::Breve), Some(ToneMark::Huyen))),
        'ắ' => Some(('a', Some(VowelMark::Breve), Some(ToneMark::Sac))),
        'ẳ' => Some(('a', Some(VowelMark::Breve), Some(ToneMark::Hoi))),
        'ẵ' => Some(('a', Some(VowelMark::Breve), Some(ToneMark::Nga))),
        'ặ' => Some(('a', Some(VowelMark::Breve), Some(ToneMark::Nang))),
        'â' => Some(('a', Some(VowelMark::Circumflex), None)),
        'ầ' => Some(('a', Some(VowelMark::Circumflex), Some(ToneMark::Huyen))),
        'ấ' => Some(('a', Some(VowelMark::Circumflex), Some(ToneMark::Sac))),
        'ẩ' => Some(('a', Some(VowelMark::Circumflex), Some(ToneMark::Hoi))),
        'ẫ' => Some(('a', Some(VowelMark::Circumflex), Some(ToneMark::Nga))),
        'ậ' => Some(('a', Some(VowelMark::Circumflex), Some(ToneMark::Nang))),
        'e' => Some(('e', None, None)),
        'è' => Some(('e', None, Some(ToneMark::Huyen))),
        'é' => Some(('e', None, Some(ToneMark::Sac))),
        'ẻ' => Some(('e', None, Some(ToneMark::Hoi))),
        'ẽ' => Some(('e', None, Some(ToneMark::Nga))),
        'ẹ' => Some(('e', None, Some(ToneMark::Nang))),
        'ê' => Some(('e', Some(VowelMark::Circumflex), None)),
        'ề' => Some(('e', Some(VowelMark::Circumflex), Some(ToneMark::Huyen))),
        'ế' => Some(('e', Some(VowelMark::Circumflex), Some(ToneMark::Sac))),
        'ể' => Some(('e', Some(VowelMark::Circumflex), Some(ToneMark::Hoi))),
        'ễ' => Some(('e', Some(VowelMark::Circumflex), Some(ToneMark::Nga))),
        'ệ' => Some(('e', Some(VowelMark::Circumflex), Some(ToneMark::Nang))),
        'i' => Some(('i', None, None)),
        'ì' => Some(('i', None, Some(ToneMark::Huyen))),
        'í' => Some(('i', None, Some(ToneMark::Sac))),
        'ỉ' => Some(('i', None, Some(ToneMark::Hoi))),
        'ĩ' => Some(('i', None, Some(ToneMark::Nga))),
        'ị' => Some(('i', None, Some(ToneMark::Nang))),
        'o' => Some(('o', None, None)),
        'ò' => Some(('o', None, Some(ToneMark::Huyen))),
        'ó' => Some(('o', None, Some(ToneMark::Sac))),
        'ỏ' => Some(('o', None, Some(ToneMark::Hoi))),
        'õ' => Some(('o', None, Some(ToneMark::Nga))),
        'ọ' => Some(('o', None, Some(ToneMark::Nang))),
        'ô' => Some(('o', Some(VowelMark::Circumflex), None)),
        'ồ' => Some(('o', Some(VowelMark::Circumflex), Some(ToneMark::Huyen))),
        'ố' => Some(('o', Some(VowelMark::Circumflex), Some(ToneMark::Sac))),
        'ổ' => Some(('o', Some(VowelMark::Circumflex), Some(ToneMark::Hoi))),
        'ỗ' => Some(('o', Some(VowelMark::Circumflex), Some(ToneMark::Nga))),
        'ộ' => Some(('o', Some(VowelMark::Circumflex), Some(ToneMark::Nang))),
        'ơ' => Some(('o', Some(VowelMark::Horn), None)),
        'ờ' => Some(('o', Some(VowelMark::Horn), Some(ToneMark::Huyen))),
        'ớ' => Some(('o', Some(VowelMark::Horn), Some(ToneMark::Sac))),
        'ở' => Some(('o', Some(VowelMark::Horn), Some(ToneMark::Hoi))),
        'ỡ' => Some(('o', Some(VowelMark::Horn), Some(ToneMark::Nga))),
        'ợ' => Some(('o', Some(VowelMark::Horn), Some(ToneMark::Nang))),
        'u' => Some(('u', None, None)),
        'ù' => Some(('u', None, Some(ToneMark::Huyen))),
        'ú' => Some(('u', None, Some(ToneMark::Sac))),
        'ủ' => Some(('u', None, Some(ToneMark::Hoi))),
        'ũ' => Some(('u', None, Some(ToneMark::Nga))),
        'ụ' => Some(('u', None, Some(ToneMark::Nang))),
        'ư' => Some(('u', Some(VowelMark::Horn), None)),
        'ừ' => Some(('u', Some(VowelMark::Horn), Some(ToneMark::Huyen))),
        'ứ' => Some(('u', Some(VowelMark::Horn), Some(ToneMark::Sac))),
        'ử' => Some(('u', Some(VowelMark::Horn), Some(ToneMark::Hoi))),
        'ữ' => Some(('u', Some(VowelMark::Horn), Some(ToneMark::Nga))),
        'ự' => Some(('u', Some(VowelMark::Horn), Some(ToneMark::Nang))),
        'y' => Some(('y', None, None)),
        'ỳ' => Some(('y', None, Some(ToneMark::Huyen))),
        'ý' => Some(('y', None, Some(ToneMark::Sac))),
        'ỷ' => Some(('y', None, Some(ToneMark::Hoi))),
        'ỹ' => Some(('y', None, Some(ToneMark::Nga))),
        'ỵ' => Some(('y', None, Some(ToneMark::Nang))),
        _ => None,
    }
}

/// Column of the glyph table for a tone: `[none, huyền, sắc, hỏi, ngã, nặng]`.
pub open spec fn pick(
    tone: Option<ToneMark>,
    none: char,
    huyen: char,
    sac: char,
    hoi: char,
    nga: char,
    nang: char,
) -> char {
    match tone {
        None => none,
        Some(ToneMark::Huyen) => huyen,
        Some(ToneMark::Sac) => sac,
        Some(ToneMark::Hoi) => hoi,
        Some(ToneMark::Nga) => nga,
        Some(ToneMark::Nang) => nang,
    }
}

/// The lowercase glyph with the given base, vowel mark and tone, if that
/// combination exists in Vietnamese (a horn on `a`, for instance, does not).
pub open spec fn glyph_of(base: char, mark: Option<VowelMark>, tone: Option<ToneMark>) -> Option<char> {
    match (base, mark) {
        ('a', None) => Some(pick(tone, 'a', 'à', 'á', 'ả', 'ã', 'ạ')),
        ('a', Some(VowelMark::Breve)) => Some(pick(tone, 'ă', 'ằ', 'ắ', 'ẳ', 'ẵ', 'ặ')),
        ('a', Some(VowelMark::Circumflex)) => Some(pick(tone, 'â', 'ầ', 'ấ', 'ẩ', 'ẫ', 'ậ')),
        ('e', None) => Some(pick(tone, 'e', 'è', 'é', 'ẻ', 'ẽ', 'ẹ')),
        ('e', Some(VowelMark::Circumflex)) => Some(pick(tone, 'ê', 'ề', 'ế', 'ể', 'ễ', 'ệ')),
        ('i', None) => Some(pick(tone, 'i', 'ì', 'í', 'ỉ', 'ĩ', 'ị')),
        ('o', None) => Some(pick(tone, 'o', 'ò', 'ó', 'ỏ', 'õ', 'ọ')),
        ('o', Some(VowelMark::Circumflex)) => Some(pick(tone, 'ô', 'ồ', 'ố', 'ổ', 'ỗ', 'ộ')),
        ('o', Some(VowelMark::Horn)) => Some(pick(tone, 'ơ', 'ờ', 'ớ', 'ở', 'ỡ', 'ợ')),
        ('u', None) => Some(pick(tone, 'u', 'ù', 'ú', 'ủ', 'ũ', 'ụ')),
        ('u', Some(VowelMark::Horn)) => Some(pick(tone, 'ư', 'ừ', 'ứ', 'ử', 'ữ', 'ự')),
        ('y', None) => Some(pick(tone, 'y', 'ỳ', 'ý', 'ỷ', 'ỹ', 'ỵ')),
        _ => None,
    }
}

/// Decomposition of any char: the glyph table applied to its lowercase form.
pub open spec fn vowel_parts(c: char) -> Option<(char, Option<VowelMark>, Option<ToneMark>)> {
    glyph_parts(lower_of(c))
}

/// `c` is a Vietnamese vowel (plain, marked or toned), ignoring case.
pub open spec fn spec_is_vowel(c: char) -> bool {
    vowel_parts(c) is Some
}

/// The base vowel of a vowel glyph.
pub open spec fn spec_base_vowel(c: char) -> Option<char> {
    match vowel_parts(c) {
        Some((b, _, _)) => Some(b),
        None => None,
    }
}

/// The vowel mark carried by a vowel glyph.
pub open spec fn spec_vowel_mark(c: char) -> Option<VowelMark> {
    match vowel_parts(c) {
        Some((_, m, _)) => m,
        None => None,
    }
}

/// The tone carried by a vowel glyph.
pub open spec fn spec_tone_mark(c: char) -> Option<ToneMark> {
    match vowel_parts(c) {
        Some((_, _, t)) => t,
        None => None,
    }
}

/// The vowel predicate as a value, for index scans.
pub open spec fn vowel_pred() -> spec_fn(char) -> bool {
    |c: char| spec_is_vowel(c)
}

/// The non-vowel predicate as a value, for index scans.
pub open spec fn non_vowel_pred() -> spec_fn(char) -> bool {
    |c: char| !spec_is_vowel(c)
}

fn glyph_parts_exec(c: char) -> (r: Option<(char, Option<VowelMark>, Option<ToneMark>)>)
    ensures
        r == glyph_parts(c),
{
    match c {
        'a' => Some(('a', None, None)),
        'à' => Some(('a', None, Some(ToneMark::Huyen))),
        'á' => Some(('a', None, Some(ToneMark::Sac))),
        'ả' => Some(('a', None, Some(ToneMark::Hoi))),
        'ã' => Some(('a', None, Some(ToneMark::Nga))),
        'ạ' => Some(('a', None, Some(ToneMark::Nang))),
        'ă' => Some(('a', Some(VowelMark::Breve), None)),
        'ằ' => Some(('a', Some(VowelMark::Breve), Some(ToneMark::Huyen))),
        'ắ' => Some(('a', Some(VowelMark::Breve), Some(ToneMark::Sac))),
        'ẳ' => Some(('a', Some(VowelMark::Breve), Some(ToneMark::Hoi))),
        'ẵ' => Some(('a', Some(VowelMark::Breve), Some(ToneMark::Nga))),
        'ặ' => Some(('a', Some(VowelMark::Breve), Some(ToneMark::Nang))),
        'â' => Some(('a', Some(VowelMark::Circumflex), None)),
        'ầ' => Some(('a', Some(VowelMark::Circumflex), Some(ToneMark::Huyen))),
        'ấ' => Some(('a', Some(VowelMark::Circumflex), Some(ToneMark::Sac))),
        'ẩ' => Some(('a', Some(VowelMark::Circumflex), Some(ToneMark::Hoi))),
        'ẫ' => Some(('a', Some(VowelMark::Circumflex), Some(ToneMark::Nga))),
        'ậ' => Some(('a', Some(VowelMark::Circumflex), Some(ToneMark::Nang))),
        'e' => Some(('e', None, None)),
        'è' => Some(('e', None, Some(ToneMark::Huyen))),
        'é' => Some(('e', None, Some(ToneMark::Sac))),
        'ẻ' => Some(('e', None, Some(ToneMark::Hoi))),
        'ẽ' => Some(('e', None, Some(ToneMark::Nga))),
        'ẹ' => Some(('e', None, Some(ToneMark::Nang))),
        'ê' => Some(('e', Some(VowelMark::Circumflex), None)),
        'ề' => Some(('e', Some(VowelMark::Circumflex), Some(ToneMark::Huyen))),
        'ế' => Some(('e', Some(VowelMark::Circumflex), Some(ToneMark::Sac))),
        'ể' => Some(('e', Some(VowelMark::Circumflex), Some(ToneMark::Hoi))),
        'ễ' => Some(('e', Some(VowelMark::Circumflex), Some(ToneMark::Nga))),
        'ệ' => Some(('e', Some(VowelMark::Circumflex), Some(ToneMark::Nang))),
        'i' => Some(('i', None, None)),
        'ì' => Some(('i', None, Some(ToneMark::Huyen))),
        'í' => Some(('i', None, Some(ToneMark::Sac))),
        'ỉ' => Some(('i', None, Some(ToneMark::Hoi))),
        'ĩ' => Some(('i', None, Some(ToneMark::Nga))),
        'ị' => Some(('i', None, Some(ToneMark::Nang))),
        'o' => Some(('o', None, None)),
        'ò' => Some(('o', None, Some(ToneMark::Huyen))),
        'ó' => Some(('o', None, Some(ToneMark::Sac))),
        'ỏ' => Some(('o', None, Some(ToneMark::Hoi))),
        'õ' => Some(('o', None, Some(ToneMark::Nga))),
        'ọ' => Some(('o', None, Some(ToneMark::Nang))),
        'ô' => Some(('o', Some(VowelMark::Circumflex), None)),
        'ồ' => Some(('o', Some(VowelMark::Circumflex), Some(ToneMark::Huyen))),
        'ố' => Some(('o', Some(VowelMark::Circumflex), Some(ToneMark::Sac))),
        'ổ' => Some(('o', Some(VowelMark::Circumflex), Some(ToneMark::Hoi))),
        'ỗ' => Some(('o', Some(VowelMark::Circumflex), Some(ToneMark::Nga))),
        'ộ' => Some(('o', Some(VowelMark::Circumflex), Some(ToneMark::Nang))),
        'ơ' => Some(('o', Some(VowelMark::Horn), None)),
        'ờ' => Some(('o', Some(VowelMark::Horn), Some(ToneMark::Huyen))),
        'ớ' => Some(('o', Some(VowelMark::Horn), Some(ToneMark::Sac))),
        'ở' => Some(('o', Some(VowelMark::Horn), Some(ToneMark::Hoi))),
        'ỡ' => Some(('o', Some(VowelMark::Horn), Some(ToneMark::Nga))),
        'ợ' => Some(('o', Some(VowelMark::Horn), Some(ToneMark::Nang))),
        'u' => Some(('u', None, None)),
        'ù' => Some(('u', None, Some(ToneMark::Huyen))),
        'ú' => Some(('u', None, Some(ToneMark::Sac))),
        'ủ' => Some(('u', None, Some(ToneMark::Hoi))),
        'ũ' => Some(('u', None, Some(ToneMark::Nga))),
        'ụ' => Some(('u', None, Some(ToneMark::Nang))),
        'ư' => Some(('u', Some(VowelMark::Horn), None)),
        'ừ' => Some(('u', Some(VowelMark::Horn), Some(ToneMark::Huyen))),
        'ứ' => Some(('u', Some(VowelMark::Horn), Some(ToneMark::Sac))),
        'ử' => Some(('u', Some(VowelMark::Horn), Some(ToneMark::Hoi))),
        'ữ' => Some(('u', Some(VowelMark::Horn), Some(ToneMark::Nga))),
        'ự' => Some(('u', Some(VowelMark::Horn), Some(ToneMark::Nang))),
        'y' => Some(('y', None, None)),
        'ỳ' => Some(('y', None, Some(ToneMark::Huyen))),
        'ý' => Some(('y', None, Some(ToneMark::Sac))),
        'ỷ' => Some(('y', None, Some(ToneMark::Hoi))),
        'ỹ' => Some(('y', None, Some(ToneMark::Nga))),
        'ỵ' => Some(('y', None, Some(ToneMark::Nang))),
        _ => None,
    }
}

fn pick_exec(
    tone: Option<ToneMark>,
    none: char,
    huyen: char,
    sac: char,
    hoi: char,
    nga: char,
    nang: char,
) -> (r: char)
    ensures
        r == pick(tone, none, huyen, sac, hoi, nga, nang),
{
    match tone {
        None => none,
        Some(ToneMark::Huyen) => huyen,
        Some(ToneMark::Sac) => sac,
        Some(ToneMark::Hoi) => hoi,
        Some(ToneMark::Nga) => nga,
        Some(ToneMark::Nang) => nang,
    }
}

/// Compose a lowercase vowel glyph from a base vowel, a vowel mark and a
/// tone; `None` when the combination is not a Vietnamese vowel.
pub fn compose_vowel(base: char, mark: Option<VowelMark>, tone: Option<ToneMark>) -> (r: Option<char>)
    ensures
        r == glyph_of(base, mark, tone),
{
    match (base, mark) {
        ('a', None) => Some(pick_exec(tone, 'a', 'à', 'á', 'ả', 'ã', 'ạ')),
        ('a', Some(VowelMark::Breve)) => Some(pick_exec(tone, 'ă', 'ằ', 'ắ', 'ẳ', 'ẵ', 'ặ')),
        ('a', Some(VowelMark::Circumflex)) => Some(pick_exec(tone, 'â', 'ầ', 'ấ', 'ẩ', 'ẫ', 'ậ')),
        ('e', None) => Some(pick_exec(tone, 'e', 'è', 'é', 'ẻ', 'ẽ', 'ẹ')),
        ('e', Some(VowelMark::Circumflex)) => Some(pick_exec(tone, 'ê', 'ề', 'ế', 'ể', 'ễ', 'ệ')),
        ('i', None) => Some(pick_exec(tone, 'i', 'ì', 'í', 'ỉ', 'ĩ', 'ị')),
        ('o', None) => Some(pick_exec(tone, 'o', 'ò', 'ó', 'ỏ', 'õ', 'ọ')),
        ('o', Some(VowelMark::Circumflex)) => Some(pick_exec(tone, 'ô', 'ồ', 'ố', 'ổ', 'ỗ', 'ộ')),
        ('o', Some(VowelMark::Horn)) => Some(pick_exec(tone, 'ơ', 'ờ', 'ớ', 'ở', 'ỡ', 'ợ')),
        ('u', None) => Some(pick_exec(tone, 'u', 'ù', 'ú', 'ủ', 'ũ', 'ụ')),
        ('u', Some(VowelMark::Horn)) => Some(pick_exec(tone, 'ư', 'ừ', 'ứ', 'ử', 'ữ', 'ự')),
        ('y', None) => Some(pick_exec(tone, 'y', 'ỳ', 'ý', 'ỷ', 'ỹ', 'ỵ')),
        _ => None,
    }
}

/// Split a vowel glyph into base vowel, vowel mark and tone; `None` when `c`
/// is not a Vietnamese vowel. The lookup is case-insensitive and the
/// returned base is lowercase.
fn decompose_vowel(c: char) -> (r: Option<(char, Option<VowelMark>, Option<ToneMark>)>)
    ensures
        r == vowel_parts(c),
{
    let lower = to_lowercase_head(c);
    glyph_parts_exec(lower)
}

/// Returns `true` if `c` is a Vietnamese vowel — a plain base vowel
/// (`a e i o u y`) or any marked/toned variant — ignoring case.
pub fn is_vietnamese_vowel(c: char) -> (r: bool)
    ensures
        r == spec_is_vowel(c),
{
    decompose_vowel(c).is_some()
}

/// The plain base vowels `a e i o u y`.
pub open spec fn spec_is_base_letter(c: char) -> bool {
    c == 'a' || c == 'e' || c == 'i' || c == 'o' || c == 'u' || c == 'y'
}

/// Returns `true` if `c` is a plain, unmarked base vowel (`a e i o u y`),
/// ignoring case.
pub fn is_base_vowel(c: char) -> (r: bool)
    ensures
        r == spec_is_base_letter(lower_of(c)),
{
    let lower = to_lowercase_head(c);
    lower == 'a' || lower == 'e' || lower == 'i' || lower == 'o' || lower == 'u' || lower == 'y'
}

/// The underlying base vowel of a vowel glyph (`ế` → `e`), or `None`.
pub fn base_vowel(c: char) -> (r: Option<char>)
    ensures
        r == spec_base_vowel(c),
{
    match decompose_vowel(c) {
        Some((b, _, _)) => Some(b),
        None => None,
    }
}

/// The vowel mark carried by a vowel glyph, if any.
pub fn vowel_mark_of(c: char) -> (r: Option<VowelMark>)
    ensures
        r == spec_vowel_mark(c),
{
    match decompose_vowel(c) {
        Some((_, m, _)) => m,
        None => None,
    }
}

/// The tone mark carried by a vowel glyph, if any.
pub fn tone_mark_of(c: char) -> (r: Option<ToneMark>)
    ensures
        r == spec_tone_mark(c),
{
    match decompose_vowel(c) {
        Some((_, _, t)) => t,
        None => None,
    }
}

} // verus!

verus! {

/// A single vowel of a cluster: a base vowel plus an optional vowel mark.
#[derive(Debug, Clone, Copy, PartialEq, Eq, Structural)]
pub struct VowelUnit {
    /// The base vowel character: one of `a e i o u y`.
    pub base: char,
    /// The optional vowel modification mark applied to the base.
    pub mark: Option<VowelMark>,
}

/// The vowel unit of a vowel glyph: its base and mark, tone dropped.
pub open spec fn unit_of(c: char) -> VowelUnit {
    VowelUnit { base: spec_base_vowel(c)->0, mark: spec_vowel_mark(c) }
}

/// The vowel units of a run of vowel glyphs.
pub open spec fn units_of(s: Seq<char>) -> Seq<VowelUnit> {
    s.map_values(|c: char| unit_of(c))
}

/// Every char of `s` is a Vietnamese vowel.
pub open spec fn all_vowels(s: Seq<char>) -> bool {
    forall|i: int| 0 <= i < s.len() ==> spec_is_vowel(#[trigger] s[i])
}

impl VowelUnit {
    /// Create a vowel unit from a base vowel and optional mark.
    pub fn new(base: char, mark: Option<VowelMark>) -> (r: Self)
        ensures
            r == (VowelUnit { base, mark }),
    {
        VowelUnit { base, mark }
    }

    /// The vowel unit of a rendered vowel glyph, discarding any tone (tones
    /// belong to the syllable); `None` when `c` is not a Vietnamese vowel.
    pub fn from_char(c: char) -> (r: Option<Self>)
        ensures
            r == (if spec_is_vowel(c) { Some(unit_of(c)) } else { None }),
    {
        match decompose_vowel(c) {
            Some((base, mark, _)) => Some(VowelUnit { base, mark }),
            None => None,
        }
    }
}

/// The nucleus of a syllable: an ordered cluster of vowel units.
#[derive(Debug, Clone, PartialEq, Eq, Default)]
pub struct VowelCluster {
    /// The vowels of the cluster, in written order.
    pub vowels: Vec<VowelUnit>,
}

impl VowelCluster {
    /// An empty vowel cluster.
    pub fn new() -> (r: Self)
        ensures
            r.vowels@ == Seq::<VowelUnit>::empty(),
    {
        VowelCluster { vowels: Vec::new() }
    }

    /// A vowel cluster made of the given units.
    pub fn from_units(units: Vec<VowelUnit>) -> (r: Self)
        ensures
            r.vowels@ == units@,
    {
        VowelCluster { vowels: units }
    }

    /// Parse a run of vowel glyphs; `None` if any char of `s` is not a
    /// Vietnamese vowel.
    pub fn parse(s: &str) -> (r: Option<Self>)
        ensures
            r is Some <==> all_vowels(s@),
            r matches Some(cl) ==> cl.vowels@ == units_of(s@),
    {
        let chars = chars_of(s);
        let mut vowels: Vec<VowelUnit> = Vec::new();
        let mut i: usize = 0;
        while i < chars.len()
            invariant
                chars@ == s@,
                i <= chars.len(),
                vowels@ == units_of(chars@.take(i as int)),
                all_vowels(chars@.take(i as int)),
            decreases chars.len() - i,
        {
            match VowelUnit::from_char(chars[i]) {
                Some(u) => vowels.push(u),
                None => {
                    assert(!all_vowels(s@) && !spec_is_vowel(s@[i as int]));
                    return None;
                },
            }
            assert(chars@.take(i as int + 1) == chars@.take(i as int).push(chars@[i as int]));
            i += 1;
        }
        assert(chars@.take(i as int) == chars@);
        Some(VowelCluster { vowels })
    }

    /// The number of vowels in the cluster.
    pub fn len(&self) -> (r: usize)
        ensures
            r == self.vowels@.len(),
    {
        self.vowels.len()
    }

    /// Returns `true` if the cluster holds no vowel.
    pub fn is_empty(&self) -> (r: bool)
        ensures
            r == (self.vowels@.len() == 0),
    {
        self.vowels.len() == 0
    }

    /// The base vowels of the cluster, marks and tones dropped (a cluster
    /// rendered "ươ" yields "uo").
    pub fn base_string(&self) -> (r: String)
        ensures
            r@ == self.vowels@.map_values(|u: VowelUnit| u.base),
    {
        let mut out = String::new();
        let mut i: usize = 0;
        while i < self.vowels.len()
            invariant
                i <= self.vowels.len(),
                out@ == self.vowels@.take(i as int).map_values(|u: VowelUnit| u.base),
            decreases self.vowels.len() - i,
        {
            push_char(&mut out, self.vowels[i].base);
            assert(self.vowels@.take(i as int + 1) == self.vowels@.take(i as int).push(self.vowels@[i as int]));
            i += 1;
        }
        assert(self.vowels@.take(i as int) == self.vowels@);
        out
    }

    /// Returns `true` if any vowel of the cluster carries a vowel mark.
    pub fn has_marked_vowel(&self) -> (r: bool)
        ensures
            r == exists|i: int| 0 <= i < self.vowels@.len() && (#[trigger] self.vowels@[i]).mark is Some,
    {
        let mut i: usize = 0;
        while i < self.vowels.len()
            invariant
                i <= self.vowels.len(),
                forall|j: int| 0 <= j < i ==> (#[trigger] self.vowels@[j]).mark is None,
            decreases self.vowels.len() - i,
        {
            if self.vowels[i].mark.is_some() {
                return true;
            }
            i += 1;
        }
        false
    }
}

/// A parsed Vietnamese syllable: onset, nucleus, coda and tone.
#[derive(Debug, Clone, PartialEq, Eq)]
pub struct Syllable {
    /// Optional initial consonant cluster (e.g. "ng", "tr", "ph").
    pub onset: Option<String>,
    /// The vowel cluster forming the nucleus (mandatory).
    pub nucleus: VowelCluster,
    /// Optional final consonant cluster (e.g. "n", "ng", "c", "t").
    pub coda: Option<String>,
    /// The tone mark of the syllable, if any.
    pub tone: Option<ToneMark>,
}

/// The chars of an optional string.
pub open spec fn opt_chars(o: Option<String>) -> Option<Seq<char>> {
    match o {
        Some(s) => Some(s@),
        None => None,
    }
}

/// `Some(s)` unless `s` is empty.
pub open spec fn non_empty(s: Seq<char>) -> Option<Seq<char>> {
    if s.len() == 0 { None } else { Some(s) }
}

/// Every char of `s[lo..hi]` is an ASCII letter.
pub open spec fn ascii_letters_in(s: Seq<char>, lo: int, hi: int) -> bool {
    forall|i: int| lo <= i < hi ==> spec_is_ascii_alpha(#[trigger] s[i])
}

/// Start of the nucleus: the first vowel of `s` (or `s.len()` if none).
pub open spec fn nucleus_start(s: Seq<char>) -> int {
    first_in(s, 0, s.len() as int, vowel_pred())
}

/// End of the nucleus: the first non-vowel after its start.
pub open spec fn nucleus_end(s: Seq<char>) -> int {
    first_in(s, nucleus_start(s), s.len() as int, non_vowel_pred())
}

/// The tone predicate as a value, for index scans.
pub open spec fn toned_pred() -> spec_fn(char) -> bool {
    |c: char| spec_tone_mark(c) is Some
}

/// The tone carried by the first toned glyph of `s`, if any.
pub open spec fn first_tone(s: Seq<char>) -> Option<ToneMark> {
    let i = first_in(s, 0, s.len() as int, toned_pred());
    if i < s.len() { spec_tone_mark(s[i]) } else { None }
}

/// `s` parses as a syllable: it has a vowel, and the chars before the first
/// vowel run and after it are all ASCII letters.
pub open spec fn parses_as_syllable(s: Seq<char>) -> bool {
    &&& nucleus_start(s) < s.len()
    &&& ascii_letters_in(s, 0, nucleus_start(s))
    &&& ascii_letters_in(s, nucleus_end(s), s.len() as int)
}

/// Exec scan: the first index in `[lo, hi)` holding a vowel (`vowel == true`)
/// or a non-vowel (`vowel == false`), or `hi`.
pub(crate) fn scan_vowels(chars: &Vec<char>, lo: usize, hi: usize, vowel: bool) -> (r: usize)
    requires
        lo <= hi <= chars.len(),
    ensures
        vowel ==> r == first_in(chars@, lo as int, hi as int, vowel_pred()),
        !vowel ==> r == first_in(chars@, lo as int, hi as int, non_vowel_pred()),
        lo <= r <= hi,
{
    let mut i = lo;
    while i < hi && is_vietnamese_vowel(chars[i]) != vowel
        invariant
            lo <= i <= hi <= chars.len(),
            vowel ==> first_in(chars@, lo as int, hi as int, vowel_pred())
                == first_in(chars@, i as int, hi as int, vowel_pred()),
            !vowel ==> first_in(chars@, lo as int, hi as int, non_vowel_pred())
                == first_in(chars@, i as int, hi as int, non_vowel_pred()),
        decreases hi - i,
    {
        if vowel {
            assert(!vowel_pred()(chars@[i as int]));
        } else {
            assert(!non_vowel_pred()(chars@[i as int]));
        }
        i += 1;
    }
    if i < hi {
        if vowel {
            assert(vowel_pred()(chars@[i as int]));
        } else {
            assert(non_vowel_pred()(chars@[i as int]));
        }
    }
    i
}

impl Syllable {
    /// A syllable built from its components.
    pub fn new(
        onset: Option<String>,
        nucleus: VowelCluster,
        coda: Option<String>,
        tone: Option<ToneMark>,
    ) -> (r: Self)
        ensures
            r == (Syllable { onset, nucleus, coda, tone }),
    {
        Syllable { onset, nucleus, coda, tone }
    }

    /// Parse a rendered syllable: leading consonants form the onset, the
    /// first contiguous run of vowels the nucleus, trailing consonants the
    /// coda; the tone is the one carried by the first toned nucleus vowel.
    ///
    /// `None` when the input has no vowel, or when the onset or coda holds
    /// anything but ASCII letters.
    pub fn parse(s: &str) -> (r: Option<Self>)
        ensures
            r is Some <==> parses_as_syllable(s@),
            r matches Some(syl) ==> {
                let f = nucleus_start(s@);
                let e = nucleus_end(s@);
                &&& opt_chars(syl.onset) == non_empty(s@.subrange(0, f))
                &&& syl.nucleus.vowels@ == units_of(s@.subrange(f, e))
                &&& opt_chars(syl.coda) == non_empty(s@.subrange(e, s@.len() as int))
                &&& syl.tone == first_tone(s@.subrange(f, e))
            },
    {
        let chars = chars_of(s);
        let n = chars.len();
        let f = scan_vowels(&chars, 0, n, true);
        if f == n {
            return None;
        }
        let e = scan_vowels(&chars, f, n, false);
        proof {
            lemma_first_in(s@, 0, n as int, vowel_pred());
            lemma_first_in(s@, f as int, n as int, non_vowel_pred());
        }
        let mut i: usize = 0;
        while i < f
            invariant
                chars@ == s@,
                f == nucleus_start(s@),
                i <= f < n == chars.len(),
                ascii_letters_in(s@, 0, i as int),
            decreases f - i,
        {
            if !is_ascii_alpha(chars[i]) {
                return None;
            }
            i += 1;
        }
        let mut i: usize = e;
        while i < n
            invariant
                chars@ == s@,
                e == nucleus_end(s@),
                e <= i <= n == chars.len(),
                ascii_letters_in(s@, e as int, i as int),
            decreases n - i,
        {
            if !is_ascii_alpha(chars[i]) {
                return None;
            }
            i += 1;
        }
        let ghost nuc = s@.subrange(f as int, e as int);
        let mut vowels: Vec<VowelUnit> = Vec::new();
        let mut tone: Option<ToneMark> = None;
        let mut tone_found = false;
        let mut k: usize = f;
        while k < e
            invariant
                chars@ == s@,
                f < e <= n == chars.len(),
                f <= k <= e,
                nuc == s@.subrange(f as int, e as int),
                forall|j: int| f <= j < e ==> spec_is_vowel(#[trigger] s@[j]),
                vowels@ == units_of(s@.subrange(f as int, k as int)),
                tone_found ==> first_in(nuc, 0, nuc.len() as int, toned_pred()) < k - f
                    && tone == first_tone(nuc),
                !tone_found ==> first_in(nuc, 0, nuc.len() as int, toned_pred())
                    == first_in(nuc, k - f, nuc.len() as int, toned_pred()) && tone is None,
            decreases e - k,
        {
            let c = chars[k];
            let u = VowelUnit::from_char(c);
            vowels.push(u.unwrap());
            assert(s@.subrange(f as int, k as int + 1) == s@.subrange(f as int, k as int).push(c));
            if !tone_found {
                let t = tone_mark_of(c);
                assert(nuc[k - f] == c);
                if t.is_some() {
                    tone = t;
                    tone_found = true;
                }
            }
            k += 1;
        }
        proof {
            lemma_first_in(nuc, 0, nuc.len() as int, toned_pred());
        }
        let onset = if f == 0 { None } else { Some(string_of_range(&chars, 0, f)) };
        let coda = if e == n { None } else { Some(string_of_range(&chars, e, n)) };
        Some(Syllable { onset, nucleus: VowelCluster { vowels }, coda, tone })
    }
}

} // verus!
