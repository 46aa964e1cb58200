//! Unicode normalization of composed text.
//!
//! A Vietnamese glyph such as `ế` can be one precomposed code point or a base
//! letter followed by combining marks. Composed output is normalized to NFC
//! (the default, fully composed) or NFD (fully decomposed) so remote systems
//! receive canonically ordered text. The normalization itself is performed by
//! the `unicode-normalization` crate.

use unicode_normalization::UnicodeNormalization;
use vstd::prelude::*;

verus! {

/// The Unicode normalization form applied to composed text.
#[derive(Debug, Clone, Copy, PartialEq, Eq, Structural)]
pub enum NormalizationForm {
    /// Canonical composition (NFC); the default.
    Nfc,
    /// Canonical decomposition (NFD).
    Nfd,
}

impl Default for NormalizationForm {
    fn default() -> (r: Self)
        ensures
            r == NormalizationForm::Nfc,
    {
        NormalizationForm::Nfc
    }
}

/// The NFC form of a string, as computed by `unicode-normalization`.
pub uninterp spec fn nfc_of(s: Seq<char>) -> Seq<char>;

/// The NFD form of a string, as computed by `unicode-normalization`.
pub uninterp spec fn nfd_of(s: Seq<char>) -> Seq<char>;

/// `UnicodeNormalization::nfc` on a `&str`, collected into a `String`. The
/// result is named, not restated: it depends on `s` alone.
#[verifier::external_body]
fn nfc_string(s: &str) -> (r: String)
    ensures
        r@ == nfc_of(s@),
{
    s.nfc().collect()
}

/// `UnicodeNormalization::nfd` on a `&str`, collected into a `String`. The
/// result is named, not restated: it depends on `s` alone.
#[verifier::external_body]
fn nfd_string(s: &str) -> (r: String)
    ensures
        r@ == nfd_of(s@),
{
    s.nfd().collect()
}

/// `s` normalized to `form`.
pub open spec fn normalized(form: NormalizationForm, s: Seq<char>) -> Seq<char> {
    match form {
        NormalizationForm::Nfc => nfc_of(s),
        NormalizationForm::Nfd => nfd_of(s),
    }
}

/// Normalizes composed text into a configured normalization form.
#[derive(Debug, Clone)]
pub struct UnicodeNormalizer {
    form: NormalizationForm,
}

impl Default for UnicodeNormalizer {
    fn default() -> (r: Self)
        ensures
            r.spec_form() == NormalizationForm::Nfc,
    {
        UnicodeNormalizer { form: NormalizationForm::Nfc }
    }
}

impl UnicodeNormalizer {
    /// The configured form.
    pub closed spec fn spec_form(&self) -> NormalizationForm {
        self.form
    }

    /// A normalizer using the default form (NFC).
    pub fn new() -> (r: Self)
        ensures
            r.spec_form() == NormalizationForm::Nfc,
    {
        UnicodeNormalizer { form: NormalizationForm::Nfc }
    }

    /// A normalizer with an explicit form.
    pub fn with_form(form: NormalizationForm) -> (r: Self)
        ensures
            r.spec_form() == form,
    {
        UnicodeNormalizer { form }
    }

    /// The configured normalization form.
    pub fn form(&self) -> (r: NormalizationForm)
        ensures
            r == self.spec_form(),
    {
        self.form
    }

    /// Change the form applied by [`normalize`](Self::normalize).
    pub fn set_form(&mut self, form: NormalizationForm)
        ensures
            final(self).spec_form() == form,
    {
        self.form = form;
    }

    /// Normalize `input` to the configured form.
    pub fn normalize(&self, input: &str) -> (r: String)
        ensures
            r@ == normalized(self.spec_form(), input@),
    {
        match self.form {
            NormalizationForm::Nfc => nfc_string(input),
            NormalizationForm::Nfd => nfd_string(input),
        }
    }
}

} // verus!
