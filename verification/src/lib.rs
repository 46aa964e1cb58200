//! Client-side Vietnamese input composer.
//!
//! Keystrokes are fed to an input-method engine (Telex, VNI or VNI Windows)
//! which rewrites a per-session composition buffer; completed syllables are
//! Unicode-normalized and handed back to the caller for delivery to the remote
//! session.

pub mod text;
pub mod syllable;
pub mod tone;
pub mod buffer;
pub mod marks;
pub mod telex;
pub mod vni;
pub mod vni_windows;
pub mod unicode_norm;
pub mod key_event;
pub mod composer;
pub mod integration;
pub mod config;
pub mod config_parser;

use vstd::prelude::*;

pub use syllable::{Syllable, VowelCluster, VowelUnit};
pub use tone::TonePlacement;
pub use buffer::{CompositionBuffer, CompositionState};
pub use telex::TelexEngine;
pub use vni::VniEngine;
pub use vni_windows::VniWindowsEngine;
pub use unicode_norm::{NormalizationForm, UnicodeNormalizer};
pub use key_event::{ControlKey, KeyEvent, KeyPayload, KeyboardMode};
pub use composer::VietnameseComposer;
pub use composer::DEFAULT_TIMEOUT;
pub use config::{KeyShortcut, VietnameseInputConfig};
pub use config_parser::{
    ConfigFormat, ConfigMetadata, ConfigParser, InputMethodConfig, ParseError, RuleContext, TransformationRule,
    ValidationError,
};

verus! {

/// Unique session identifier.
pub type VietSessionId = String;

/// The set of Vietnamese input methods supported by the composer.
#[derive(Debug, Clone, Copy, PartialEq, Eq, Structural)]
pub enum InputMethod {
    /// Telex: diacritics typed with letter combinations.
    Telex,
    /// VNI: diacritics typed with number keys.
    Vni,
    /// The VNI Windows variant.
    VniWindows,
    /// Composition disabled; keystrokes pass through unchanged.
    Off,
}

/// Vietnamese tone marks.
#[derive(Debug, Clone, Copy, PartialEq, Eq, Structural)]
pub enum ToneMark {
    /// Sắc — acute accent (á).
    Sac,
    /// Huyền — grave accent (à).
    Huyen,
    /// Hỏi — hook above (ả).
    Hoi,
    /// Ngã — tilde (ã).
    Nga,
    /// Nặng — dot below (ạ).
    Nang,
}

/// Vowel modification marks.
#[derive(Debug, Clone, Copy, PartialEq, Eq, Structural)]
pub enum VowelMark {
    /// Circumflex (â, ê, ô).
    Circumflex,
    /// Breve (ă).
    Breve,
    /// Horn (ơ, ư).
    Horn,
}

/// One transformation step recorded in the composition history, used for
/// last-applied-first-removed backspace reversal.
#[derive(Debug, Clone, Copy, PartialEq, Eq, Structural)]
pub enum TransformStep {
    /// A base character was inserted.
    BaseCharacter(char),
    /// A vowel mark was applied, transforming `base` into `result`.
    VowelMark { base: char, result: char },
    /// A tone mark was applied to a target vowel.
    ToneMark { tone: ToneMark, target_vowel: char },
    /// A consonant mark was applied, transforming `base` into `result`.
    ConsonantMark { base: char, result: char },
}

/// What an input-method engine did with one keystroke.
#[derive(Debug, Clone, Copy, PartialEq, Eq, Structural)]
pub enum TransformResult {
    /// The character was added or transformed and the buffer updated.
    Transformed,
    /// A tone, vowel or consonant mark was applied.
    ToneApplied,
    /// The character ends the composition; commit, then pass it through.
    CommitAndPass(char),
    /// The character matches no rule; flush the buffer as raw text.
    InvalidSequence,
    /// Still accumulating input.
    Buffering,
}

/// What the composer tells its caller to do after one keystroke.
#[derive(Debug, Clone, PartialEq)]
pub enum ComposerResult {
    /// The keystroke was buffered; nothing to send yet.
    Consumed,
    /// A composition completed; send this text.
    Compose(String),
    /// Not part of a composition; send this event unchanged.
    PassThrough(KeyEvent),
    /// Flush the buffer as raw text.
    Flush(String),
}

/// Shared interface of the input-method engines (Telex, VNI, VNI Windows).
pub trait InputMethodEngine {
    /// The buffer state and result after processing `key` from state `before`.
    spec fn step(&self, before: buffer::BufferView, key: char) -> (buffer::BufferView, TransformResult);

    /// The engine's display name.
    spec fn display_name(&self) -> Seq<char>;

    /// Whether `c` could start a composition sequence.
    spec fn composable_start(&self, c: char) -> bool;

    /// Process one keystroke against the current buffer state.
    fn process_key(&self, buffer: &mut CompositionBuffer, key: char) -> (r: TransformResult)
        ensures
            (final(buffer)@, r) == self.step(old(buffer)@, key),
            final(buffer).same_identity(*old(buffer)),
            final(buffer).last_keystroke == old(buffer).last_keystroke,
    ;

    /// The human-readable display name of this engine.
    fn name(&self) -> (r: &str)
        ensures
            r@ == self.display_name(),
    ;

    /// Whether a character could start a composition sequence.
    fn is_composable_start(&self, c: char) -> (r: bool)
        ensures
            r == self.composable_start(c),
    ;
}

} // verus!
