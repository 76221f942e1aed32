//! Logging settings read from the environment, and the filter directive
//! they give. Installing the subscriber is left to the caller.

use vstd::prelude::*;
use crate::config::{opt_view, valid_level, level_error, verbose_value, check_level};
use crate::text::{std_str_lowercase, str_eq};

verus! {

/// Logging settings: level, verbosity and an optional log file.
#[derive(Debug)]
pub struct LogConfig {
    pub level: String,
    pub verbose: bool,
    pub log_file: Option<String>,
}

impl LogConfig {
    /// Level `info`, not verbose, no log file.
    pub fn default() -> (r: LogConfig)
        ensures
            r.level@ == "info"@,
            !r.verbose,
            r.log_file is None,
    {
        LogConfig { level: String::from_str("info"), verbose: false, log_file: None }
    }

    /// The settings given by the values of `SUMMER_LSP_LOG_LEVEL`,
    /// `SUMMER_LSP_VERBOSE` and `SUMMER_LSP_LOG_FILE`: the level in lower
    /// case (`info` when unset), verbose for `1` or `true` in any case.
    pub fn from_env(level: Option<String>, verbose: Option<String>, log_file: Option<String>) -> (r: LogConfig)
        ensures
            r.level@ == match level {
                Some(l) => std_str_lowercase(l@),
                None => std_str_lowercase("info"@),
            },
            r.verbose == match verbose {
                Some(v) => verbose_value(v@),
                None => false,
            },
            opt_view(r.log_file) == opt_view(log_file),
    {
        let level = match level {
            Some(l) => crate::text::to_lowercase(l.as_str()),
            None => crate::text::to_lowercase("info"),
        };
        let verbose = match verbose {
            Some(v) => {
                let lower = crate::text::to_lowercase(v.as_str());
                str_eq(v.as_str(), "1") || str_eq(lower.as_str(), "true")
            },
            None => false,
        };
        LogConfig { level, verbose, log_file }
    }

    /// The filter directive for these settings: this crate at the level,
    /// and in verbose mode the protocol library too.
    pub fn filter_directive(&self) -> (r: String)
        ensures
            r@ == if self.verbose {
                "summer_lsp="@ + self.level@ + ",lsp_server="@ + self.level@
            } else {
                "summer_lsp="@ + self.level@
            },
    {
        let mut s = String::from_str("summer_lsp=");
        s.append(self.level.as_str());
        if self.verbose {
            s.append(",lsp_server=");
            s.append(self.level.as_str());
        }
        s
    }

    /// Checks the level: one of trace, debug, info, warn, error.
    pub fn validate_level(&self) -> (r: Result<(), String>)
        ensures
            match r {
                Ok(()) => valid_level(self.level@),
                Err(e) => !valid_level(self.level@) && e@ == level_error(self.level@),
            },
    {
        check_level(&self.level)
    }
}

} // verus!
