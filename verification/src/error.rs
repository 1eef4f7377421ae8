//! The error taxonomy of the library. Detection failures are the only fatal
//! errors of the translation subsystem; everything else is either recovered
//! locally (malformed lines are skipped) or reported by the catalog layer.

use vstd::prelude::*;

verus! {

/// Every failure the library can report. Variants carry plain strings so the
/// surrounding command layer can present them; no variant wraps a foreign
/// error type.
#[derive(Debug, Clone, PartialEq, Eq)]
pub enum AlxError {
    /// An alias with this name is already in the catalog.
    AliasExists(String),
    /// No alias with this name is in the catalog.
    AliasNotFound(String),
    /// The alias name fails validation; the payload says why.
    InvalidAliasName(String),
    /// The command fails validation; the payload says why.
    InvalidCommand(String),
    /// A path could not be resolved, or a migration source was not recognized.
    ConfigError(String),
    /// No signal was available to decide the active shell.
    ShellDetectionFailed,
    /// A signal named a shell outside the supported set; the payload names it.
    UnsupportedShell(String),
}

} // verus!
