//! Server configuration: logging, completion, diagnostics and schema
//! settings, how a later source overrides an earlier one, and validation.
//!
//! Sources are applied in order: defaults, the user's configuration file,
//! the workspace's `.summer-lsp.toml`, then environment variables. Reading
//! the files and the environment is left to the caller, which hands the
//! values in.

use vstd::prelude::*;
use crate::text::{views, is_prefix, std_str_lowercase, str_eq, starts_with, copy_strings};
use crate::toml_tree::{TomlNode, TomlValue, TomlEntry, TomlParse, toml_tree_is};

verus! {

/// Logging settings.
#[derive(Debug)]
pub struct LoggingConfig {
    /// One of trace, debug, info, warn, error.
    pub level: String,
    pub verbose: bool,
    pub log_file: Option<String>,
}

/// Characters that trigger completion.
#[derive(Debug)]
pub struct CompletionConfig {
    pub trigger_characters: Vec<String>,
}

/// Diagnostic kinds that are switched off.
#[derive(Debug)]
pub struct DiagnosticsConfig {
    pub disabled: Vec<String>,
}

/// Where the configuration schema is loaded from.
#[derive(Debug)]
pub struct SchemaConfig {
    pub url: String,
}

/// The whole server configuration.
#[derive(Debug)]
pub struct ServerConfig {
    pub logging: LoggingConfig,
    pub completion: CompletionConfig,
    pub diagnostics: DiagnosticsConfig,
    pub schema: SchemaConfig,
}

/// Values read from the environment: `SUMMER_LSP_LOG_LEVEL`,
/// `SUMMER_LSP_VERBOSE`, `SUMMER_LSP_LOG_FILE` and `SUMMER_LSP_SCHEMA_URL`.
#[derive(Debug)]
pub struct EnvOverrides {
    pub log_level: Option<String>,
    pub verbose: Option<String>,
    pub log_file: Option<String>,
    pub schema_url: Option<String>,
}

// ----- mathematical content -----

pub struct LoggingV {
    pub level: Seq<char>,
    pub verbose: bool,
    pub log_file: Option<Seq<char>>,
}

pub struct ServerConfigV {
    pub logging: LoggingV,
    pub trigger_characters: Seq<Seq<char>>,
    pub disabled: Set<Seq<char>>,
    pub url: Seq<char>,
}

pub open spec fn opt_view(o: Option<String>) -> Option<Seq<char>> {
    match o {
        Some(s) => Some(s@),
        None => None,
    }
}

impl View for LoggingConfig {
    type V = LoggingV;

    open spec fn view(&self) -> LoggingV {
        LoggingV { level: self.level@, verbose: self.verbose, log_file: opt_view(self.log_file) }
    }
}

impl View for ServerConfig {
    type V = ServerConfigV;

    open spec fn view(&self) -> ServerConfigV {
        ServerConfigV {
            logging: self.logging@,
            trigger_characters: views(self.completion.trigger_characters@),
            disabled: views(self.diagnostics.disabled@).to_set(),
            url: self.schema.url@,
        }
    }
}

pub open spec fn default_level() -> Seq<char> {
    "info"@
}

pub open spec fn default_schema_url() -> Seq<char> {
    "https://summer-rs.github.io/config-schema.json"@
}

pub open spec fn default_triggers() -> Seq<Seq<char>> {
    seq!["["@, "."@, "$"@, "{"@, "#"@, "("@]
}

pub open spec fn default_config() -> ServerConfigV {
    ServerConfigV {
        logging: LoggingV { level: default_level(), verbose: false, log_file: None },
        trigger_characters: default_triggers(),
        disabled: Set::empty(),
        url: default_schema_url(),
    }
}

/// `b` over `a`: the level and verbosity of `b`; the log file of `b` when it
/// has one; the lists of `b` when they are not empty; the URL of `b`.
pub open spec fn merge_logging(a: LoggingV, b: LoggingV) -> LoggingV {
    LoggingV {
        level: b.level,
        verbose: b.verbose,
        log_file: match b.log_file {
            Some(f) => Some(f),
            None => a.log_file,
        },
    }
}

pub open spec fn merge_config(a: ServerConfigV, b: ServerConfigV) -> ServerConfigV {
    ServerConfigV {
        logging: merge_logging(a.logging, b.logging),
        trigger_characters: if b.trigger_characters.len() == 0 {
            a.trigger_characters
        } else {
            b.trigger_characters
        },
        disabled: if b.disabled.is_empty() {
            a.disabled
        } else {
            b.disabled
        },
        url: b.url,
    }
}

/// Whether an environment value switches verbosity on: `1`, or `true` in
/// any case.
pub open spec fn verbose_value(v: Seq<char>) -> bool {
    v == "1"@ || std_str_lowercase(v) == "true"@
}

pub open spec fn apply_env(c: ServerConfigV, level: Option<Seq<char>>, verbose: Option<Seq<char>>, log_file: Option<Seq<char>>, url: Option<Seq<char>>) -> ServerConfigV {
    ServerConfigV {
        logging: LoggingV {
            level: match level {
                Some(l) => std_str_lowercase(l),
                None => c.logging.level,
            },
            verbose: match verbose {
                Some(v) => verbose_value(v),
                None => c.logging.verbose,
            },
            log_file: match log_file {
                Some(f) => Some(f),
                None => c.logging.log_file,
            },
        },
        trigger_characters: c.trigger_characters,
        disabled: c.disabled,
        url: match url {
            Some(u) => u,
            None => c.url,
        },
    }
}

pub open spec fn valid_level(l: Seq<char>) -> bool {
    l == "trace"@ || l == "debug"@ || l == "info"@ || l == "warn"@ || l == "error"@
}

pub open spec fn level_error(l: Seq<char>) -> Seq<char> {
    "Invalid log level: "@ + l + ". Valid levels are: trace, debug, info, warn, error"@
}

pub open spec fn empty_triggers_error() -> Seq<char> {
    "Trigger characters list cannot be empty"@
}

pub open spec fn empty_url_error() -> Seq<char> {
    "Schema URL cannot be empty"@
}

pub open spec fn url_scheme_error(u: Seq<char>) -> Seq<char> {
    "Invalid Schema URL: "@ + u + ". Must start with http://, https://, or file://"@
}

pub open spec fn has_known_scheme(u: Seq<char>) -> bool {
    is_prefix("http://"@, u) || is_prefix("https://"@, u) || is_prefix("file://"@, u)
}

/// The first problem with a configuration, if any: the log level, then the
/// trigger characters, then the schema URL.
pub open spec fn config_error(c: ServerConfigV) -> Option<Seq<char>> {
    if !valid_level(c.logging.level) {
        Some(level_error(c.logging.level))
    } else if c.trigger_characters.len() == 0 {
        Some(empty_triggers_error())
    } else if c.url.len() == 0 {
        Some(empty_url_error())
    } else if !has_known_scheme(c.url) {
        Some(url_scheme_error(c.url))
    } else {
        None
    }
}

// ----- laws -----

/// Merging is associative: layering `c` over (`b` over `a`) is layering
/// (`c` over `b`) over `a`.
pub proof fn law_merge_associative(a: ServerConfigV, b: ServerConfigV, c: ServerConfigV)
    ensures
        merge_config(merge_config(a, b), c) == merge_config(a, merge_config(b, c)),
{
}

/// Merging a configuration with itself changes nothing.
pub proof fn law_merge_idempotent(a: ServerConfigV)
    ensures
        merge_config(a, a) == a,
{
}

/// Merging over the defaults a configuration whose lists are not empty and
/// which names a log file gives that configuration.
pub proof fn law_merge_over_default(b: ServerConfigV)
    requires
        b.trigger_characters.len() > 0,
        !b.disabled.is_empty(),
        b.logging.log_file is Some,
    ensures
        merge_config(default_config(), b) == b,
{
}

// ----- executable -----

fn level_error_message(level: &String) -> (s: String)
    ensures
        s@ == level_error(level@),
{
    let mut s = String::from_str("Invalid log level: ");
    s.append(level.as_str());
    s.append(". Valid levels are: trace, debug, info, warn, error");
    s
}

/// Whether a log level is one of trace, debug, info, warn, error.
pub fn is_valid_level(level: &str) -> (b: bool)
    ensures
        b == valid_level(level@),
{
    str_eq(level, "trace") || str_eq(level, "debug") || str_eq(level, "info") || str_eq(level, "warn")
        || str_eq(level, "error")
}

/// Checks a log level, with the message for one that is not known.
pub fn check_level(level: &String) -> (r: Result<(), String>)
    ensures
        match r {
            Ok(()) => valid_level(level@),
            Err(e) => !valid_level(level@) && e@ == level_error(level@),
        },
{
    if is_valid_level(level.as_str()) {
        Ok(())
    } else {
        Err(level_error_message(level))
    }
}

impl LoggingConfig {
    pub fn default() -> (r: LoggingConfig)
        ensures
            r@ == default_config().logging,
    {
        LoggingConfig { level: String::from_str("info"), verbose: false, log_file: None }
    }

    /// `other` over `self`: its level and verbosity, and its log file when
    /// it names one.
    pub fn merge(self, other: LoggingConfig) -> (r: LoggingConfig)
        ensures
            r@ == merge_logging(self@, other@),
    {
        LoggingConfig {
            level: other.level,
            verbose: other.verbose,
            log_file: match other.log_file {
                Some(f) => Some(f),
                None => self.log_file,
            },
        }
    }

    /// Applies the environment values that are set.
    pub fn apply_env_overrides(self, level: Option<String>, verbose: Option<String>, log_file: Option<String>) -> (r: LoggingConfig)
        ensures
            r@ == apply_env(
                ServerConfigV { logging: self@, trigger_characters: seq![], disabled: Set::empty(), url: seq![] },
                opt_view(level),
                opt_view(verbose),
                opt_view(log_file),
                None,
            ).logging,
    {
        let mut c = self;
        if let Some(l) = level {
            c.level = crate::text::to_lowercase(l.as_str());
        }
        if let Some(v) = verbose {
            let lower = crate::text::to_lowercase(v.as_str());
            c.verbose = str_eq(v.as_str(), "1") || str_eq(lower.as_str(), "true");
        }
        if let Some(f) = log_file {
            c.log_file = Some(f);
        }
        c
    }

    /// Checks the log level.
    pub fn validate(&self) -> (r: Result<(), String>)
        ensures
            match r {
                Ok(()) => valid_level(self.level@),
                Err(e) => !valid_level(self.level@) && e@ == level_error(self.level@),
            },
    {
        check_level(&self.level)
    }
}

impl CompletionConfig {
    pub fn default() -> (r: CompletionConfig)
        ensures
            views(r.trigger_characters@) == default_triggers(),
    {
        let mut v: Vec<String> = Vec::new();
        v.push(String::from_str("["));
        v.push(String::from_str("."));
        v.push(String::from_str("$"));
        v.push(String::from_str("{"));
        v.push(String::from_str("#"));
        v.push(String::from_str("("));
        assert(views(v@) =~= default_triggers());
        CompletionConfig { trigger_characters: v }
    }

    /// The characters of `other` unless it has none.
    pub fn merge(self, other: CompletionConfig) -> (r: CompletionConfig)
        ensures
            r.trigger_characters@ == (if other.trigger_characters@.len() == 0 {
                self.trigger_characters@
            } else {
                other.trigger_characters@
            }),
    {
        if other.trigger_characters.len() == 0 {
            self
        } else {
            other
        }
    }

    /// Refuses an empty list.
    pub fn validate(&self) -> (r: Result<(), String>)
        ensures
            match r {
                Ok(()) => self.trigger_characters@.len() > 0,
                Err(e) => self.trigger_characters@.len() == 0 && e@ == empty_triggers_error(),
            },
    {
        if self.trigger_characters.len() == 0 {
            return Err(String::from_str("Trigger characters list cannot be empty"));
        }
        Ok(())
    }
}

impl DiagnosticsConfig {
    /// Each switched-off kind is listed once.
    pub open spec fn wf(&self) -> bool {
        views(self.disabled@).no_duplicates()
    }

    pub fn default() -> (r: DiagnosticsConfig)
        ensures
            r.disabled@.len() == 0,
            r.wf(),
    {
        DiagnosticsConfig { disabled: Vec::new() }
    }

    /// The list of `other` unless it is empty.
    pub fn merge(self, other: DiagnosticsConfig) -> (r: DiagnosticsConfig)
        ensures
            r.disabled@ == (if other.disabled@.len() == 0 {
                self.disabled@
            } else {
                other.disabled@
            }),
            self.wf() && other.wf() ==> r.wf(),
    {
        if other.disabled.len() == 0 {
            self
        } else {
            other
        }
    }

    /// Whether the diagnostic kind is switched off.
    pub fn is_disabled(&self, diagnostic_type: &str) -> (r: bool)
        ensures
            r == views(self.disabled@).contains(diagnostic_type@),
    {
        crate::text::contains_string(&self.disabled, diagnostic_type)
    }

    /// Switches a diagnostic kind off.
    pub fn disable(&mut self, diagnostic_type: &str)
        ensures
            views(final(self).disabled@).to_set() == views(old(self).disabled@).to_set().insert(diagnostic_type@),
            old(self).wf() ==> final(self).wf(),
    {
        let ghost before = views(self.disabled@);
        if !crate::text::contains_string(&self.disabled, diagnostic_type) {
            self.disabled.push(String::from_str(diagnostic_type));
            assert(views(self.disabled@) =~= before.push(diagnostic_type@));
            proof {
                if before.no_duplicates() {
                    assert forall|i: int, j: int| 0 <= i < before.len() + 1 && 0 <= j < before.len() + 1 && i != j
                        implies #[trigger] views(self.disabled@)[i] != #[trigger] views(self.disabled@)[j] by {
                        if i == before.len() {
                            assert(views(self.disabled@)[j] == before[j]);
                        } else if j == before.len() {
                            assert(views(self.disabled@)[i] == before[i]);
                        }
                    }
                }
                broadcast use vstd::seq_lib::group_seq_properties;
                assert(before.push(diagnostic_type@).to_set() =~= before.to_set().insert(diagnostic_type@));
            }
        } else {
            assert(views(self.disabled@).to_set() =~= before.to_set().insert(diagnostic_type@));
        }
    }
}

impl SchemaConfig {
    pub fn default() -> (r: SchemaConfig)
        ensures
            r.url@ == default_schema_url(),
    {
        SchemaConfig { url: String::from_str("https://summer-rs.github.io/config-schema.json") }
    }

    /// The URL of `other`.
    pub fn merge(self, other: SchemaConfig) -> (r: SchemaConfig)
        ensures
            r.url@ == other.url@,
    {
        SchemaConfig { url: other.url }
    }

    /// Applies `SUMMER_LSP_SCHEMA_URL` when it is set.
    pub fn apply_env_overrides(self, url: Option<String>) -> (r: SchemaConfig)
        ensures
            r.url@ == match url {
                Some(u) => u@,
                None => self.url@,
            },
    {
        match url {
            Some(u) => SchemaConfig { url: u },
            None => self,
        }
    }

    /// Refuses an empty URL and one that is not http, https or file.
    pub fn validate(&self) -> (r: Result<(), String>)
        ensures
            match r {
                Ok(()) => self.url@.len() > 0 && has_known_scheme(self.url@),
                Err(e) => if self.url@.len() == 0 {
                    e@ == empty_url_error()
                } else {
                    !has_known_scheme(self.url@) && e@ == url_scheme_error(self.url@)
                },
            },
    {
        if self.url.as_str().unicode_len() == 0 {
            return Err(String::from_str("Schema URL cannot be empty"));
        }
        let u = self.url.as_str();
        if !starts_with(u, "http://") && !starts_with(u, "https://") && !starts_with(u, "file://") {
            let mut s = String::from_str("Invalid Schema URL: ");
            s.append(u);
            s.append(". Must start with http://, https://, or file://");
            return Err(s);
        }
        Ok(())
    }
}

impl ServerConfig {
    /// The default configuration.
    pub fn default() -> (r: ServerConfig)
        ensures
            r@ == default_config(),
            r.diagnostics.wf(),
    {
        let r = ServerConfig {
            logging: LoggingConfig::default(),
            completion: CompletionConfig::default(),
            diagnostics: DiagnosticsConfig::default(),
            schema: SchemaConfig::default(),
        };
        assert(views(r.diagnostics.disabled@).to_set() =~= Set::empty());
        r
    }

    /// `other` over `self`, section by section.
    pub fn merge(self, other: ServerConfig) -> (r: ServerConfig)
        ensures
            r@ == merge_config(self@, other@),
            self.diagnostics.wf() && other.diagnostics.wf() ==> r.diagnostics.wf(),
    {
        let ghost a = self@;
        let ghost b = other@;
        let r = ServerConfig {
            logging: self.logging.merge(other.logging),
            completion: self.completion.merge(other.completion),
            diagnostics: self.diagnostics.merge(other.diagnostics),
            schema: self.schema.merge(other.schema),
        };
        proof {
            assert(b.disabled.is_empty() ==> other.diagnostics.disabled@.len() == 0) by {
                if other.diagnostics.disabled@.len() > 0 {
                    assert(b.disabled.contains(views(other.diagnostics.disabled@)[0]));
                }
            }
            assert(other.diagnostics.disabled@.len() == 0 ==> b.disabled =~= Set::empty());
        }
        r
    }

    /// Applies the environment values that are set.
    pub fn apply_env_overrides(self, env: EnvOverrides) -> (r: ServerConfig)
        ensures
            r@ == apply_env(self@, opt_view(env.log_level), opt_view(env.verbose), opt_view(env.log_file), opt_view(env.schema_url)),
    {
        ServerConfig {
            logging: self.logging.apply_env_overrides(env.log_level, env.verbose, env.log_file),
            completion: self.completion,
            diagnostics: self.diagnostics,
            schema: self.schema.apply_env_overrides(env.schema_url),
        }
    }

    /// The configuration from its sources, later ones overriding earlier
    /// ones: defaults, the user's file, the workspace's file, then the
    /// environment.
    pub fn load(user_config: Option<ServerConfig>, workspace_config: Option<ServerConfig>, env: EnvOverrides) -> (r: ServerConfig)
        ensures
            ({
                let with_user = match user_config {
                    Some(u) => merge_config(default_config(), u@),
                    None => default_config(),
                };
                let with_workspace = match workspace_config {
                    Some(w) => merge_config(with_user, w@),
                    None => with_user,
                };
                r@ == apply_env(with_workspace, opt_view(env.log_level), opt_view(env.verbose), opt_view(env.log_file), opt_view(env.schema_url))
            }),
    {
        let mut config = ServerConfig::default();
        if let Some(u) = user_config {
            config = config.merge(u);
        }
        if let Some(w) = workspace_config {
            config = config.merge(w);
        }
        config.apply_env_overrides(env)
    }

    /// The first problem with the configuration, if any.
    pub fn validate(&self) -> (r: Result<(), String>)
        ensures
            match r {
                Ok(()) => config_error(self@) is None,
                Err(e) => config_error(self@) == Some(e@),
            },
    {
        match self.logging.validate() {
            Ok(()) => {},
            Err(e) => return Err(e),
        }
        match self.completion.validate() {
            Ok(()) => {},
            Err(e) => return Err(e),
        }
        self.schema.validate()
    }
}

// ----- reading a configuration file -----

/// The node under `key` in `entries`, the first if several.
pub open spec fn entry_node(entries: Seq<TomlEntry>, key: Seq<char>) -> Option<TomlNode>
    decreases entries.len(),
{
    if entries.len() == 0 {
        None
    } else if entries[0].key@ == key {
        Some(entries[0].value)
    } else {
        entry_node(entries.drop_first(), key)
    }
}

fn find_entry<'a>(entries: &'a Vec<TomlEntry>, key: &str) -> (r: Option<&'a TomlNode>)
    ensures
        match r {
            Some(n) => entry_node(entries@, key@) == Some(*n),
            None => entry_node(entries@, key@) is None,
        },
{
    let mut i: usize = 0;
    proof {
        assert(entries@.subrange(0, entries@.len() as int) =~= entries@);
    }
    while i < entries.len()
        invariant
            i <= entries@.len(),
            entry_node(entries@, key@) == entry_node(entries@.subrange(i as int, entries@.len() as int), key@),
        decreases entries@.len() - i,
    {
        proof {
            assert(entries@.subrange(i as int, entries@.len() as int).drop_first() =~= entries@.subrange(
                i + 1,
                entries@.len() as int,
            ));
            assert(entries@.subrange(i as int, entries@.len() as int)[0] == entries@[i as int]);
        }
        if str_eq(entries[i].key.as_str(), key) {
            return Some(&entries[i].value);
        }
        i = i + 1;
    }
    None
}

/// A string setting: the default when absent, nothing when not a string.
pub open spec fn string_setting(entries: Seq<TomlEntry>, key: Seq<char>, default: Seq<char>) -> Option<Seq<char>> {
    match entry_node(entries, key) {
        None => Some(default),
        Some(n) => match n.value {
            TomlValue::Str(s) => Some(s@),
            _ => None,
        },
    }
}

/// A list-of-strings setting: the default when absent, nothing when not an
/// array of strings.
pub open spec fn strings_setting(entries: Seq<TomlEntry>, key: Seq<char>, default: Seq<Seq<char>>) -> Option<Seq<Seq<char>>> {
    match entry_node(entries, key) {
        None => Some(default),
        Some(n) => match n.value {
            TomlValue::Array(items) => if forall|i: int| 0 <= i < items@.len() ==> #[trigger] items@[i].value is Str {
                Some(Seq::new(items@.len(), |i: int| items@[i].value->Str_0@))
            } else {
                None
            },
            _ => None,
        },
    }
}

/// The entries of a section: none when absent, nothing when not a table.
pub open spec fn section_entries(root: Seq<TomlEntry>, key: Seq<char>) -> Option<Seq<TomlEntry>> {
    match entry_node(root, key) {
        None => Some(seq![]),
        Some(n) => match n.value {
            TomlValue::Table(es) => Some(es@),
            _ => None,
        },
    }
}

/// The configuration a TOML tree gives, each missing setting taking its
/// default; nothing when a section is not a table or a setting has the
/// wrong type.
pub open spec fn config_from_tree(root: TomlNode) -> Option<ServerConfigV> {
    match root.value {
        TomlValue::Table(es) => {
            let root = es@;
            match (section_entries(root, "logging"@), section_entries(root, "completion"@), section_entries(root, "diagnostics"@), section_entries(root, "schema"@)) {
                (Some(lg), Some(cp), Some(dg), Some(sc)) => {
                    let verbose = match entry_node(lg, "verbose"@) {
                        None => Some(false),
                        Some(n) => match n.value {
                            TomlValue::Bool(b) => Some(b),
                            _ => None,
                        },
                    };
                    let log_file = match entry_node(lg, "log_file"@) {
                        None => Some(None),
                        Some(n) => match n.value {
                            TomlValue::Str(s) => Some(Some(s@)),
                            _ => None,
                        },
                    };
                    match (string_setting(lg, "level"@, default_level()), verbose, log_file, strings_setting(cp, "trigger_characters"@, default_triggers()), strings_setting(dg, "disabled"@, seq![]), string_setting(sc, "url"@, default_schema_url())) {
                        (Some(level), Some(verbose), Some(log_file), Some(triggers), Some(disabled), Some(url)) => Some(
                            ServerConfigV {
                                logging: LoggingV { level, verbose, log_file },
                                trigger_characters: triggers,
                                disabled: disabled.to_set(),
                                url,
                            },
                        ),
                        _ => None,
                    }
                },
                _ => None,
            }
        },
        _ => None,
    }
}

fn read_string_setting(entries: &Vec<TomlEntry>, key: &str, default: &str) -> (r: Option<String>)
    ensures
        opt_view(r) == string_setting(entries@, key@, default@),
{
    match find_entry(entries, key) {
        None => Some(String::from_str(default)),
        Some(n) => match &n.value {
            TomlValue::Str(s) => Some(s.clone()),
            _ => None,
        },
    }
}

/// The strings of `v`, each once, at its first place.
fn distinct_strings(v: Vec<String>) -> (r: Vec<String>)
    ensures
        views(r@).no_duplicates(),
        views(r@).to_set() == views(v@).to_set(),
{
    let mut out: Vec<String> = Vec::new();
    let mut i: usize = 0;
    while i < v.len()
        invariant
            i <= v@.len(),
            views(out@).no_duplicates(),
            views(out@).to_set() == views(v@.subrange(0, i as int)).to_set(),
        decreases v@.len() - i,
    {
        let ghost before = views(out@);
        proof {
            assert(views(v@.subrange(0, i + 1)) =~= views(v@.subrange(0, i as int)).push(v@[i as int]@));
            broadcast use vstd::seq_lib::group_seq_properties;
        }
        if !crate::text::contains_string(&out, v[i].as_str()) {
            out.push(v[i].clone());
            proof {
                assert(views(out@) =~= before.push(v@[i as int]@));
                assert forall|a: int, b: int| 0 <= a < before.len() + 1 && 0 <= b < before.len() + 1 && a != b
                    implies #[trigger] views(out@)[a] != #[trigger] views(out@)[b] by {
                    if a == before.len() {
                        assert(views(out@)[b] == before[b]);
                    } else if b == before.len() {
                        assert(views(out@)[a] == before[a]);
                    }
                }
                assert(before.push(v@[i as int]@).to_set() =~= before.to_set().insert(v@[i as int]@));
                assert(views(v@.subrange(0, i as int)).push(v@[i as int]@).to_set()
                    =~= views(v@.subrange(0, i as int)).to_set().insert(v@[i as int]@));
            }
        } else {
            proof {
                assert(before.to_set().contains(v@[i as int]@));
                assert(views(v@.subrange(0, i as int)).push(v@[i as int]@).to_set()
                    =~= views(v@.subrange(0, i as int)).to_set().insert(v@[i as int]@));
                assert(before.to_set() =~= before.to_set().insert(v@[i as int]@));
            }
        }
        i = i + 1;
    }
    proof {
        assert(v@.subrange(0, v@.len() as int) =~= v@);
    }
    out
}

fn read_strings_setting(entries: &Vec<TomlEntry>, key: &str, default: Vec<String>) -> (r: Option<Vec<String>>)
    ensures
        match r {
            Some(v) => strings_setting(entries@, key@, views(default@)) == Some(views(v@)),
            None => strings_setting(entries@, key@, views(default@)) is None,
        },
{
    match find_entry(entries, key) {
        None => Some(default),
        Some(n) => match &n.value {
            TomlValue::Array(items) => {
                let mut out: Vec<String> = Vec::new();
                let mut i: usize = 0;
                while i < items.len()
                    invariant
                        entry_node(entries@, key@) == Some(*n),
                        n.value == TomlValue::Array(*items),
                        i <= items@.len(),
                        out@.len() == i,
                        forall|k: int| 0 <= k < i ==> #[trigger] items@[k].value is Str && out@[k]@ == items@[k].value->Str_0@,
                    decreases items@.len() - i,
                {
                    match &items[i].value {
                        TomlValue::Str(s) => out.push(s.clone()),
                        _ => {
                            return None;
                        },
                    }
                    i = i + 1;
                }
                assert(views(out@) =~= Seq::new(items@.len(), |k: int| items@[k].value->Str_0@));
                Some(out)
            },
            _ => None,
        },
    }
}

fn read_section<'a>(root: &'a Vec<TomlEntry>, key: &str, empty: &'a Vec<TomlEntry>) -> (r: Option<&'a Vec<TomlEntry>>)
    requires
        empty@.len() == 0,
    ensures
        match r {
            Some(es) => section_entries(root@, key@) == Some(es@),
            None => section_entries(root@, key@) is None,
        },
{
    match find_entry(root, key) {
        None => {
            assert(empty@ =~= seq![]);
            Some(empty)
        },
        Some(n) => match &n.value {
            TomlValue::Table(es) => Some(es),
            _ => None,
        },
    }
}

impl ServerConfig {
    /// The configuration a TOML tree describes, each missing setting taking
    /// its default.
    pub fn from_toml_tree(root: &TomlNode) -> (r: Result<ServerConfig, String>)
        ensures
            match r {
                Ok(c) => config_from_tree(*root) == Some(c@),
                Err(_) => config_from_tree(*root) is None,
            },
            r matches Ok(c) ==> c.diagnostics.wf(),
    {
        let err = String::from_str("invalid configuration: a setting has the wrong type");
        let root_entries = match &root.value {
            TomlValue::Table(es) => es,
            _ => return Err(err),
        };
        let empty: Vec<TomlEntry> = Vec::new();
        let lg = match read_section(root_entries, "logging", &empty) {
            Some(x) => x,
            None => return Err(err),
        };
        let cp = match read_section(root_entries, "completion", &empty) {
            Some(x) => x,
            None => return Err(err),
        };
        let dg = match read_section(root_entries, "diagnostics", &empty) {
            Some(x) => x,
            None => return Err(err),
        };
        let sc = match read_section(root_entries, "schema", &empty) {
            Some(x) => x,
            None => return Err(err),
        };
        let verbose = match find_entry(lg, "verbose") {
            None => false,
            Some(n) => match &n.value {
                TomlValue::Bool(b) => *b,
                _ => return Err(err),
            },
        };
        let log_file = match find_entry(lg, "log_file") {
            None => None,
            Some(n) => match &n.value {
                TomlValue::Str(s) => Some(s.clone()),
                _ => return Err(err),
            },
        };
        let level = match read_string_setting(lg, "level", "info") {
            Some(x) => x,
            None => return Err(err),
        };
        let triggers = match read_strings_setting(cp, "trigger_characters", CompletionConfig::default().trigger_characters) {
            Some(x) => x,
            None => return Err(err),
        };
        let no_disabled: Vec<String> = Vec::new();
        proof {
            assert(views(no_disabled@) =~= seq![]);
        }
        let disabled = match read_strings_setting(dg, "disabled", no_disabled) {
            Some(x) => distinct_strings(x),
            None => return Err(err),
        };
        let url = match read_string_setting(sc, "url", "https://summer-rs.github.io/config-schema.json") {
            Some(x) => x,
            None => return Err(err),
        };
        Ok(
            ServerConfig {
                logging: LoggingConfig { level, verbose, log_file },
                completion: CompletionConfig { trigger_characters: triggers },
                diagnostics: DiagnosticsConfig { disabled },
                schema: SchemaConfig { url },
            },
        )
    }

    /// Reads a configuration file's text: a syntax error refuses it, and so
    /// does a key defined twice; otherwise the settings of its tree are read,
    /// each missing one taking its default.
    pub fn from_toml_str(content: &str) -> (r: Result<ServerConfig, String>)
        requires
            content@.len() * 4 < u32::MAX,
        ensures
            crate::toml_dom::taplo_syntax_errors(content@)@.len() > 0 ==> (r matches Err(e)
                && e@ == "invalid configuration: TOML syntax error"@),
            crate::toml_dom::taplo_syntax_errors(content@)@.len() == 0 && !crate::toml_dom::taplo_dom_valid(content@)
                ==> (r matches Err(e) && e@ == "invalid configuration: a key is defined twice"@),
            crate::toml_dom::taplo_syntax_errors(content@)@.len() == 0 && crate::toml_dom::taplo_dom_valid(content@) ==> exists|root: TomlNode| toml_tree_is(root, content@) && #[trigger] config_from_tree(root)
                == match r {
                Ok(c) => Some(c@),
                Err(_) => None::<ServerConfigV>,
            },
            r matches Ok(c) ==> c.diagnostics.wf(),
    {
        let parsed: TomlParse = crate::toml_tree::parse_toml(content);
        if parsed.errors.len() > 0 {
            return Err(String::from_str("invalid configuration: TOML syntax error"));
        }
        if !crate::toml_tree::toml_keys_valid(content) {
            return Err(String::from_str("invalid configuration: a key is defined twice"));
        }
        let r = Self::from_toml_tree(&parsed.root);
        assert(config_from_tree(parsed.root) == match r {
            Ok(c) => Some(c@),
            Err(_) => None::<ServerConfigV>,
        });
        r
    }
}

} // verus!
