//! The settings the configuration file persists. Serialization itself is the
//! outer layer's concern; here the values and their defaults are pinned.

use vstd::prelude::*;

verus! {

/// User-tunable settings.
#[derive(Debug, Clone)]
pub struct Settings {
    pub default_shell: Option<String>,
    pub auto_sync: bool,
    pub backup_enabled: bool,
}

impl Default for Settings {
    /// No pinned shell; syncing and backups on.
    fn default() -> (r: Settings)
        ensures
            r.default_shell is None,
            r.auto_sync == true,
            r.backup_enabled == true,
    {
        Settings { default_shell: None, auto_sync: true, backup_enabled: true }
    }
}

/// The whole persisted configuration.
#[derive(Debug)]
pub struct Config {
    pub settings: Settings,
}

impl Default for Config {
    fn default() -> (r: Config)
        ensures
            r.settings.default_shell is None,
            r.settings.auto_sync == true,
            r.settings.backup_enabled == true,
    {
        Config { settings: Settings::default() }
    }
}

} // verus!
