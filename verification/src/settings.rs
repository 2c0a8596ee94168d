//! Holding a configuration together with the file path it is kept
//! under. Reading and writing that file happens outside; the manager
//! is handed what was loaded, and falls back to the defaults when
//! nothing was.

use vstd::prelude::*;

use crate::config::{config_is_default, Config};

verus! {

/// Configuration manager for persistent settings.
pub struct ConfigManager {
    /// Where the configuration is kept.
    pub config_path: String,
    /// The active configuration.
    pub config: Config,
}

impl ConfigManager {
    /// A manager for the given path, holding what was loaded from it,
    /// or the defaults when the file held nothing.
    pub fn new(config_path: String, loaded: Option<Config>) -> (r: Self)
        ensures
            r.config_path == config_path,
            loaded matches Some(c) ==> r.config == c,
            loaded is None ==> config_is_default(r.config),
    {
        let config = match loaded {
            Some(c) => c,
            None => Config::default(),
        };
        ConfigManager { config_path, config }
    }

    /// The current configuration.
    pub fn config(&self) -> (r: &Config)
        ensures
            *r == self.config,
    {
        &self.config
    }
}

} // verus!
