//! Where the catalog keeps its files. Paths are plain strings built under
//! the platform's configuration directory; creating directories and writing
//! files is the outer layer's concern.

use vstd::prelude::*;

use crate::error::AlxError;

verus! {

/// The resolved file locations of one installation.
pub struct ConfigManager {
    pub config_dir: String,
    pub config_file: String,
    pub aliases_file: String,
}

/// Relies on `dirs::config_dir`: the platform's per-user configuration
/// directory, if one is known; `None` also when the path is not unicode.
#[verifier::external_body]
fn os_config_dir() -> Option<String> {
    match dirs::config_dir() {
        Some(p) => p.into_os_string().into_string().ok(),
        None => None,
    }
}

impl ConfigManager {
    /// The layout under a given base directory: an `alx` directory holding
    /// the config and the catalog.
    pub fn with_base_dir(base: &str) -> (r: ConfigManager)
        ensures
            r.config_dir@ == base@ + "/alx"@,
            r.config_file@ == r.config_dir@ + "/config.toml"@,
            r.aliases_file@ == r.config_dir@ + "/aliases.toml"@,
    {
        let mut config_dir = String::from_str(base);
        config_dir.append("/alx");
        let mut config_file = config_dir.clone();
        config_file.append("/config.toml");
        let mut aliases_file = config_dir.clone();
        aliases_file.append("/aliases.toml");
        ConfigManager { config_dir, config_file, aliases_file }
    }

    /// The layout under the platform's configuration directory. Fails
    /// exactly when the platform reports no usable directory.
    pub fn new() -> (r: Result<ConfigManager, AlxError>)
        ensures
            match r {
                Ok(m) => (exists|base: Seq<char>|
                    m.config_dir@ == #[trigger] (base + "/alx"@)) && m.config_file@
                    == m.config_dir@ + "/config.toml"@ && m.aliases_file@ == m.config_dir@
                    + "/aliases.toml"@,
                Err(e) => e matches AlxError::ConfigError(m) && m@
                    == "Could not find config directory"@,
            },
    {
        match os_config_dir() {
            Some(base) => {
                let m = Self::with_base_dir(base.as_str());
                proof {
                    assert(m.config_dir@ == base@ + "/alx"@);
                }
                Ok(m)
            },
            None => Err(
                AlxError::ConfigError(String::from_str("Could not find config directory")),
            ),
        }
    }

    /// The directory everything lives under.
    pub fn config_dir(&self) -> (r: &String)
        ensures
            r == &self.config_dir,
    {
        &self.config_dir
    }

    /// The persisted settings file.
    pub fn config_file(&self) -> (r: &String)
        ensures
            r == &self.config_file,
    {
        &self.config_file
    }

    /// The persisted catalog file.
    pub fn aliases_file(&self) -> (r: &String)
        ensures
            r == &self.aliases_file,
    {
        &self.aliases_file
    }

    /// Where generated shell files go.
    pub fn shell_dir(&self) -> (r: String)
        ensures
            r@ == self.config_dir@ + "/shell"@,
    {
        let mut s = self.config_dir.clone();
        s.append("/shell");
        s
    }

    /// The generated alias file the shells source.
    pub fn shell_aliases_file(&self) -> (r: String)
        ensures
            r@ == self.config_dir@ + "/shell/aliases.sh"@,
    {
        let mut s = self.config_dir.clone();
        s.append("/shell/aliases.sh");
        s
    }

    /// Where backups go.
    pub fn backup_dir(&self) -> (r: String)
        ensures
            r@ == self.config_dir@ + "/backups"@,
    {
        let mut s = self.config_dir.clone();
        s.append("/backups");
        s
    }

    /// Whether an installation is in place: both the directory and the
    /// settings file must be there. The caller reports what is on disk.
    pub fn is_initialized(&self, config_dir_exists: bool, config_file_exists: bool) -> (r: bool)
        ensures
            r == (config_dir_exists && config_file_exists),
    {
        config_dir_exists && config_file_exists
    }
}

} // verus!
