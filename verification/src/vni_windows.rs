//! VNI Windows input-method engine.
//!
//! Built over the standard [`VniEngine`]: a table of Windows-specific
//! `(base vowel, modifier key) → glyph` overrides is consulted first, and
//! every keystroke it does not cover is handled exactly as standard VNI. With
//! no overrides the engine behaves exactly like standard VNI.

use vstd::prelude::*;

use std::collections::HashMap;

use crate::buffer::{BufferView, CompositionBuffer};
use crate::marks::{find_last_vowel, last_vowel, lemma_last_vowel_at, rewrite, rewrite_model};
use crate::syllable::{base_vowel, spec_base_vowel, spec_is_vowel};
use crate::text::{
    char_is_uppercase, chars_of, is_ascii_digit, is_upper, spec_is_ascii_digit,
    spec_is_ascii_alpha, to_uppercase_head, upper_of,
};
use crate::vni::{vni_step, VniEngine};
use crate::{InputMethodEngine, TransformResult, TransformStep};

verus! {

/// The glyph an override table maps `key` to; a later entry for the same
/// key replaces an earlier one.
pub open spec fn override_of(entries: Seq<((char, char), char)>, key: (char, char)) -> Option<char>
    decreases entries.len(),
{
    if entries.len() == 0 {
        None
    } else if entries.last().0 == key {
        Some(entries.last().1)
    } else {
        override_of(entries.drop_last(), key)
    }
}

/// A key has an override exactly when some entry is for it, and the
/// override found is one of the entries for it.
proof fn lemma_override_lookup(entries: Seq<((char, char), char)>, key: (char, char))
    ensures
        override_of(entries, key) is Some <==> exists|i: int| 0 <= i < entries.len() && (#[trigger] entries[i]).0 == key,
        override_of(entries, key) is Some ==> exists|i: int|
            0 <= i < entries.len() && entries[i] == (key, override_of(entries, key)->0),
    decreases entries.len(),
{
    if entries.len() > 0 {
        let init = entries.drop_last();
        lemma_override_lookup(init, key);
        assert(entries.last() == entries[entries.len() - 1]);
        if exists|i: int| 0 <= i < init.len() && (#[trigger] init[i]).0 == key {
            let i = choose|i: int| 0 <= i < init.len() && (#[trigger] init[i]).0 == key;
            assert(entries[i] == init[i]);
        }
        if exists|i: int| 0 <= i < entries.len() && (#[trigger] entries[i]).0 == key {
            let i = choose|i: int| 0 <= i < entries.len() && (#[trigger] entries[i]).0 == key;
            if i < init.len() {
                assert(init[i] == entries[i]);
            }
        }
        if override_of(init, key) is Some && entries.last().0 != key {
            let i = choose|i: int| 0 <= i < init.len() && init[i] == (key, override_of(init, key)->0);
            assert(entries[i] == init[i]);
        }
    }
}

/// The entries of `m`, each once, as std's `HashMap::iter` visits them
/// (in no particular order), copied out of the map.
#[verifier::external_body]
fn hash_map_entries(m: &HashMap<(char, char), char>) -> (r: Vec<((char, char), char)>)
    ensures
        r@.len() == m@.len(),
        forall|i: int| 0 <= i < r@.len() ==> m@.contains_key((#[trigger] r@[i]).0) && m@[r@[i].0] == r@[i].1,
        forall|k: (char, char)| #[trigger] m@.contains_key(k) ==> exists|i: int| 0 <= i < r@.len() && (#[trigger] r@[i]).0 == k,
{
    m.iter().map(|(k, v)| (*k, *v)).collect()
}

/// The buffer after a Windows override for `key` on the last vowel of the
/// text (keeping that vowel's case); `None` when no override applies.
pub open spec fn override_model(v: BufferView, key: char, entries: Seq<((char, char), char)>) -> Option<BufferView> {
    let s = v.current;
    let last = last_vowel(s);
    if !spec_is_ascii_digit(key) || last < 0 {
        None
    } else {
        let b = spec_base_vowel(s[last])->0;
        match override_of(entries, (b, key)) {
            None => None,
            Some(mapped) => {
                let cased = if is_upper(s[last]) { upper_of(mapped) } else { mapped };
                Some(rewrite_model(v, s.update(last, cased), key, TransformStep::VowelMark { base: b, result: cased }))
            },
        }
    }
}

/// One VNI Windows keystroke: an override when one applies, standard VNI
/// otherwise.
pub open spec fn vni_windows_step(v: BufferView, key: char, entries: Seq<((char, char), char)>) -> (BufferView, TransformResult) {
    match override_model(v, key, entries) {
        Some(w) => (w, TransformResult::ToneApplied),
        None => vni_step(v, key),
    }
}

/// The VNI Windows input-method engine.
#[derive(Debug, Clone)]
pub struct VniWindowsEngine {
    /// Base VNI engine providing the standard transformations.
    base: VniEngine,
    /// Windows-specific overrides, `((base_vowel, modifier_key), glyph)`.
    overrides: Vec<((char, char), char)>,
}

impl VniWindowsEngine {
    /// The override table.
    pub closed spec fn override_entries(&self) -> Seq<((char, char), char)> {
        self.overrides@
    }

    /// A new VNI Windows engine: with no Windows configuration supplied it
    /// behaves as standard VNI.
    pub fn new() -> (r: Self)
        ensures
            r.override_entries().len() == 0,
    {
        Self::standard()
    }

    /// A VNI Windows engine without overrides, behaving exactly like
    /// standard VNI.
    pub fn standard() -> (r: Self)
        ensures
            r.override_entries().len() == 0,
    {
        VniWindowsEngine { base: VniEngine::new(), overrides: Vec::new() }
    }

    /// A VNI Windows engine with the given `(base_vowel, modifier_key) →
    /// glyph` overrides; pairs absent from the table use standard VNI.
    pub fn with_overrides(overrides: HashMap<(char, char), char>) -> (r: Self)
        ensures
            r.override_entries().len() == overrides@.len(),
            forall|k: (char, char)|
                #[trigger] override_of(r.override_entries(), k) == if overrides@.contains_key(k) {
                    Some(overrides@[k])
                } else {
                    None
                },
    {
        let entries = hash_map_entries(&overrides);
        proof {
            assert forall|k: (char, char)| #[trigger] override_of(entries@, k) == if overrides@.contains_key(k) {
                Some(overrides@[k])
            } else {
                None
            } by {
                lemma_override_lookup(entries@, k);
                if override_of(entries@, k) is Some {
                    let i = choose|i: int| 0 <= i < entries@.len() && entries@[i] == (k, override_of(entries@, k)->0);
                    assert(overrides@.contains_key(entries@[i].0));
                } else if overrides@.contains_key(k) {
                    let i = choose|i: int| 0 <= i < entries@.len() && (#[trigger] entries@[i]).0 == k;
                    assert(entries@[i].0 == k);
                }
            }
        }
        VniWindowsEngine { base: VniEngine::new(), overrides: entries }
    }

    /// Returns `true` if any Windows-specific override is configured.
    pub fn has_overrides(&self) -> (r: bool)
        ensures
            r == (self.override_entries().len() > 0),
    {
        self.overrides.len() > 0
    }

    fn lookup(&self, key: (char, char)) -> (r: Option<char>)
        ensures
            r == override_of(self.overrides@, key),
    {
        let mut i = self.overrides.len();
        assert(self.overrides@.take(i as int) == self.overrides@);
        while i > 0
            invariant
                i <= self.overrides.len(),
                override_of(self.overrides@, key) == override_of(self.overrides@.take(i as int), key),
            decreases i,
        {
            assert(self.overrides@.take(i as int).drop_last() == self.overrides@.take(i - 1));
            let entry = self.overrides[i - 1];
            if entry.0.0 == key.0 && entry.0.1 == key.1 {
                return Some(entry.1);
            }
            i -= 1;
        }
        None
    }

    /// Apply a Windows override for `key` to the last vowel, if one applies.
    /// Returns `None` (buffer unchanged) when standard VNI should handle it.
    fn try_override(&self, buffer: &mut CompositionBuffer, key: char) -> (r: Option<TransformResult>)
        ensures
            r is Some <==> override_model(old(buffer)@, key, self.overrides@) is Some,
            r is Some ==> r == Some(TransformResult::ToneApplied)
                && final(buffer)@ == override_model(old(buffer)@, key, self.overrides@)->0,
            r is None ==> final(buffer)@ == old(buffer)@,
            final(buffer).same_identity(*old(buffer)),
            final(buffer).last_keystroke == old(buffer).last_keystroke,
    {
        if self.overrides.len() == 0 || !is_ascii_digit(key) {
            proof {
                assert(self.overrides@.len() == 0 ==> forall|k: (char, char)| override_of(self.overrides@, k) is None);
            }
            return None;
        }
        let chars = chars_of(buffer.current.as_str());
        let last = match find_last_vowel(&chars) {
            Some(i) => i,
            None => return None,
        };
        let last_base = match base_vowel(chars[last]) {
            Some(b) => b,
            None => return None,
        };
        let mapped = match self.lookup((last_base, key)) {
            Some(m) => m,
            None => return None,
        };
        let cased = if char_is_uppercase(chars[last]) { to_uppercase_head(mapped) } else { mapped };
        let mut new_chars = chars;
        new_chars.set(last, cased);
        rewrite(buffer, &new_chars, key, TransformStep::VowelMark { base: last_base, result: cased });
        Some(TransformResult::ToneApplied)
    }
}

impl Default for VniWindowsEngine {
    fn default() -> (r: Self)
        ensures
            r.override_entries().len() == 0,
    {
        Self::new()
    }
}

impl InputMethodEngine for VniWindowsEngine {
    open spec fn step(&self, before: BufferView, key: char) -> (BufferView, TransformResult) {
        vni_windows_step(before, key, self.override_entries())
    }

    open spec fn display_name(&self) -> Seq<char> {
        "VNI Windows"@
    }

    open spec fn composable_start(&self, c: char) -> bool {
        spec_is_ascii_alpha(c)
    }

    fn process_key(&self, buffer: &mut CompositionBuffer, key: char) -> (r: TransformResult) {
        if let Some(result) = self.try_override(buffer, key) {
            return result;
        }
        self.base.process_key(buffer, key)
    }

    fn name(&self) -> (r: &str) {
        let r = "VNI Windows";
        proof {
            reveal_strlit("VNI Windows");
        }
        r
    }

    fn is_composable_start(&self, c: char) -> (r: bool) {
        self.base.is_composable_start(c)
    }
}

/// With no overrides, VNI Windows processes every keystroke exactly as
/// standard VNI.
pub proof fn lemma_standard_matches_vni(engine: VniWindowsEngine, v: BufferView, key: char)
    requires
        engine.override_entries().len() == 0,
    ensures
        engine.step(v, key) == VniEngine.step(v, key),
{
}

/// With an override for `(b, key)`, a digit `key` whose composed text's last
/// vowel has base `b` replaces that vowel with the override glyph (in the
/// vowel's case), whatever consonants follow the vowel; nothing else of the
/// text changes and the key is recorded.
pub proof fn lemma_override_applies_to_last_vowel(
    engine: VniWindowsEngine,
    v: BufferView,
    key: char,
    i: int,
    b: char,
    g: char,
)
    requires
        spec_is_ascii_digit(key),
        0 <= i < v.current.len(),
        spec_base_vowel(v.current[i]) == Some(b),
        forall|j: int| i < j < v.current.len() ==> !spec_is_vowel(#[trigger] v.current[j]),
        override_of(engine.override_entries(), (b, key)) == Some(g),
    ensures
        engine.step(v, key).1 == TransformResult::ToneApplied,
        engine.step(v, key).0.current == v.current.update(
            i,
            if is_upper(v.current[i]) {
                upper_of(g)
            } else {
                g
            },
        ),
        engine.step(v, key).0.raw == v.raw.push(key),
{
    lemma_last_vowel_at(v.current, i);
}

} // verus!
