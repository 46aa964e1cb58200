//! Option-store keys under which each configuration field is persisted.

use vstd::prelude::*;

verus! {

/// Whether Vietnamese input is enabled (`"Y"` / empty).
pub const ENABLED: &'static str = "vietnamese-input-enabled";

/// Default input method identifier (`"telex"`, `"vni"`, `"vni_windows"`, `"off"`).
pub const METHOD: &'static str = "vietnamese-input-method";

/// Unicode normalization form (`"nfc"` / `"nfd"`).
pub const NORMALIZATION: &'static str = "vietnamese-input-normalization";

/// Toggle shortcut chord (e.g. `"ctrl+shift+v"`).
pub const TOGGLE_SHORTCUT: &'static str = "vietnamese-input-toggle-shortcut";

/// Cycle shortcut chord (e.g. `"ctrl+shift+i"`).
pub const CYCLE_SHORTCUT: &'static str = "vietnamese-input-cycle-shortcut";

/// Whether the composition overlay is shown (`"Y"` / `"N"`).
pub const SHOW_OVERLAY: &'static str = "vietnamese-input-show-overlay";

/// Optional custom-rules directory (empty = none).
pub const CUSTOM_RULES_DIR: &'static str = "vietnamese-input-custom-rules-dir";

/// Idle-flush timeout in milliseconds (e.g. `"500"`).
pub const TIMEOUT_MS: &'static str = "vietnamese-input-timeout-ms";

} // verus!
