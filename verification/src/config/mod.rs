//! The configuration: its defaults, how a user file overlays the system
//! file, and what makes it valid.

use vstd::prelude::*;
use vstd::string::StringExecFns;
use crate::engine::errors::{ErrorView, RatpmError};

pub mod schema;

verus! {

/// Where the system-wide configuration file lives.
pub const SYSTEM_CONFIG_PATH: &'static str = "/etc/ratpm/ratpm.toml";

/// Where a user's configuration file lives, below the home directory.
pub const USER_CONFIG_PATH: &'static str = ".config/ratpm/ratpm.toml";

/// The whole configuration.
#[derive(Debug)]
pub struct Config {
    pub system: SystemConfig,
    pub repos: RepoConfig,
    pub transaction: TransactionConfig,
}

/// The `[system]` table.
#[derive(Debug)]
pub struct SystemConfig {
    pub backend: String,
    pub assume_yes: bool,
    pub color: bool,
    pub cache_dir: String,
    pub lock_file: String,
}

/// The `[repos]` table.
#[derive(Debug)]
pub struct RepoConfig {
    pub auto_refresh: bool,
    pub metadata_expire: u64,
    pub repo_dir: String,
    pub gpgcheck: bool,
}

/// The `[transaction]` table.
#[derive(Debug)]
pub struct TransactionConfig {
    pub keep_cache: bool,
    pub history_limit: usize,
    pub verify_signatures: bool,
}

/// The mathematical content of a [`SystemConfig`].
pub struct SystemConfigView {
    pub backend: Seq<char>,
    pub assume_yes: bool,
    pub color: bool,
    pub cache_dir: Seq<char>,
    pub lock_file: Seq<char>,
}

/// The mathematical content of a [`RepoConfig`].
pub struct RepoConfigView {
    pub auto_refresh: bool,
    pub metadata_expire: u64,
    pub repo_dir: Seq<char>,
    pub gpgcheck: bool,
}

/// The mathematical content of a [`TransactionConfig`].
pub struct TransactionConfigView {
    pub keep_cache: bool,
    pub history_limit: usize,
    pub verify_signatures: bool,
}

/// The mathematical content of a [`Config`].
pub struct ConfigView {
    pub system: SystemConfigView,
    pub repos: RepoConfigView,
    pub transaction: TransactionConfigView,
}

impl View for SystemConfig {
    type V = SystemConfigView;

    open spec fn view(&self) -> SystemConfigView {
        SystemConfigView {
            backend: self.backend@,
            assume_yes: self.assume_yes,
            color: self.color,
            cache_dir: self.cache_dir@,
            lock_file: self.lock_file@,
        }
    }
}

impl View for RepoConfig {
    type V = RepoConfigView;

    open spec fn view(&self) -> RepoConfigView {
        RepoConfigView {
            auto_refresh: self.auto_refresh,
            metadata_expire: self.metadata_expire,
            repo_dir: self.repo_dir@,
            gpgcheck: self.gpgcheck,
        }
    }
}

impl View for TransactionConfig {
    type V = TransactionConfigView;

    open spec fn view(&self) -> TransactionConfigView {
        TransactionConfigView {
            keep_cache: self.keep_cache,
            history_limit: self.history_limit,
            verify_signatures: self.verify_signatures,
        }
    }
}

impl View for Config {
    type V = ConfigView;

    open spec fn view(&self) -> ConfigView {
        ConfigView { system: self.system@, repos: self.repos@, transaction: self.transaction@ }
    }
}

/// The `[system]` table when the file says nothing.
pub open spec fn default_system() -> SystemConfigView {
    SystemConfigView {
        backend: "fedora"@,
        assume_yes: false,
        color: true,
        cache_dir: "/var/cache/ratpm"@,
        lock_file: "/var/lock/ratpm.lock"@,
    }
}

/// The `[repos]` table when the file says nothing.
pub open spec fn default_repos() -> RepoConfigView {
    RepoConfigView {
        auto_refresh: true,
        metadata_expire: 86400,
        repo_dir: "/etc/yum.repos.d"@,
        gpgcheck: true,
    }
}

/// The `[transaction]` table when the file says nothing.
pub open spec fn default_transaction() -> TransactionConfigView {
    TransactionConfigView { keep_cache: true, history_limit: 100, verify_signatures: true }
}

/// The configuration when no file is found.
pub open spec fn default_config() -> ConfigView {
    ConfigView {
        system: default_system(),
        repos: default_repos(),
        transaction: default_transaction(),
    }
}

/// The default backend.
pub fn default_backend() -> (r: String)
    ensures
        r@ == "fedora"@,
{
    String::from_str("fedora")
}

/// The default of every switch that is on unless turned off.
pub fn default_true() -> (r: bool)
    ensures
        r,
{
    true
}

/// The default cache directory.
pub fn default_cache_dir() -> (r: String)
    ensures
        r@ == "/var/cache/ratpm"@,
{
    String::from_str("/var/cache/ratpm")
}

/// The default lock file.
pub fn default_lock_file() -> (r: String)
    ensures
        r@ == "/var/lock/ratpm.lock"@,
{
    String::from_str("/var/lock/ratpm.lock")
}

/// The default lifetime of repository metadata, in seconds.
pub fn default_metadata_expire() -> (r: u64)
    ensures
        r == 86400,
{
    86400
}

/// The default directory of repository definitions.
pub fn default_repo_dir() -> (r: String)
    ensures
        r@ == "/etc/yum.repos.d"@,
{
    String::from_str("/etc/yum.repos.d")
}

/// The default number of history entries kept.
pub fn default_history_limit() -> (r: usize)
    ensures
        r == 100,
{
    100
}

impl Default for SystemConfig {
    fn default() -> (r: Self)
        ensures
            r@ == default_system(),
    {
        Self {
            backend: default_backend(),
            assume_yes: false,
            color: default_true(),
            cache_dir: default_cache_dir(),
            lock_file: default_lock_file(),
        }
    }
}

impl Default for RepoConfig {
    fn default() -> (r: Self)
        ensures
            r@ == default_repos(),
    {
        Self {
            auto_refresh: default_true(),
            metadata_expire: default_metadata_expire(),
            repo_dir: default_repo_dir(),
            gpgcheck: default_true(),
        }
    }
}

impl Default for TransactionConfig {
    fn default() -> (r: Self)
        ensures
            r@ == default_transaction(),
    {
        Self {
            keep_cache: default_true(),
            history_limit: default_history_limit(),
            verify_signatures: default_true(),
        }
    }
}

impl Default for Config {
    fn default() -> (r: Self)
        ensures
            r@ == default_config(),
    {
        Self {
            system: SystemConfig::default(),
            repos: RepoConfig::default(),
            transaction: TransactionConfig::default(),
        }
    }
}

impl Clone for SystemConfig {
    fn clone(&self) -> (r: Self)
        ensures
            r@ == self@,
    {
        Self {
            backend: self.backend.clone(),
            assume_yes: self.assume_yes,
            color: self.color,
            cache_dir: self.cache_dir.clone(),
            lock_file: self.lock_file.clone(),
        }
    }
}

impl Clone for RepoConfig {
    fn clone(&self) -> (r: Self)
        ensures
            r@ == self@,
    {
        Self {
            auto_refresh: self.auto_refresh,
            metadata_expire: self.metadata_expire,
            repo_dir: self.repo_dir.clone(),
            gpgcheck: self.gpgcheck,
        }
    }
}

impl Clone for TransactionConfig {
    fn clone(&self) -> (r: Self)
        ensures
            r@ == self@,
    {
        Self {
            keep_cache: self.keep_cache,
            history_limit: self.history_limit,
            verify_signatures: self.verify_signatures,
        }
    }
}

impl Clone for Config {
    fn clone(&self) -> (r: Self)
        ensures
            r@ == self@,
    {
        Self {
            system: self.system.clone(),
            repos: self.repos.clone(),
            transaction: self.transaction.clone(),
        }
    }
}

/// `base` overlaid by `overlay`: the overlay can only switch `assume_yes` on
/// and `color` off; everything else stays as `base` has it.
pub open spec fn merged(base: ConfigView, overlay: ConfigView) -> ConfigView {
    ConfigView {
        system: SystemConfigView {
            assume_yes: base.system.assume_yes || overlay.system.assume_yes,
            color: base.system.color && overlay.system.color,
            ..base.system
        },
        ..base
    }
}

/// Why a configuration is refused, if it is: the first of an unsupported
/// backend, a zero metadata lifetime and a zero history limit.
pub open spec fn validation_error(c: ConfigView) -> Option<Seq<char>> {
    if c.system.backend != "fedora"@ {
        Some("Unsupported backend: "@ + c.system.backend)
    } else if c.repos.metadata_expire == 0 {
        Some("metadata_expire must be greater than 0"@)
    } else if c.transaction.history_limit == 0 {
        Some("history_limit must be greater than 0"@)
    } else {
        None
    }
}

/// The configuration in force given what the system file and the user file
/// hold, before validation.
pub open spec fn layered(system: Option<ConfigView>, user: Option<ConfigView>) -> ConfigView {
    match (system, user) {
        (Some(s), Some(u)) => merged(s, u),
        (Some(s), None) => s,
        (None, Some(u)) => u,
        (None, None) => default_config(),
    }
}

/// The view of an optional configuration.
pub open spec fn optional_view(c: Option<Config>) -> Option<ConfigView> {
    match c {
        Some(c) => Some(c@),
        None => None,
    }
}

/// Overlays `overlay` on `base`.
pub fn merge_configs(base: &mut Config, overlay: Config)
    ensures
        final(base)@ == merged(old(base)@, overlay@),
{
    if overlay.system.assume_yes {
        base.system.assume_yes = true;
    }
    if !overlay.system.color {
        base.system.color = false;
    }
}

/// Accepts a configuration or says why it is refused.
pub fn validate_config(config: &Config) -> (r: Result<(), RatpmError>)
    ensures
        match r {
            Ok(_) => validation_error(config@) is None,
            Err(e) => validation_error(config@) matches Some(msg) && e@ == ErrorView::ConfigError(
                msg,
            ),
        },
{
    let fedora = String::from_str("fedora");
    if !(config.system.backend == fedora) {
        let mut msg = String::from_str("Unsupported backend: ");
        msg.append(config.system.backend.as_str());
        return Err(RatpmError::ConfigError(msg));
    }
    if config.repos.metadata_expire == 0 {
        return Err(
            RatpmError::ConfigError(String::from_str("metadata_expire must be greater than 0")),
        );
    }
    if config.transaction.history_limit == 0 {
        return Err(
            RatpmError::ConfigError(String::from_str("history_limit must be greater than 0")),
        );
    }
    Ok(())
}

/// The configuration in force, given what was read from the system file and
/// from the user file: the user file overlays the system file, either one
/// stands alone, and the defaults apply when there is neither. The result is
/// validated.
pub fn load_config(system: Option<Config>, user: Option<Config>) -> (r: Result<Config, RatpmError>)
    ensures
        match r {
            Ok(c) => {
                &&& c@ == layered(optional_view(system), optional_view(user))
                &&& validation_error(c@) is None
            },
            Err(e) => validation_error(layered(optional_view(system), optional_view(user)))
                matches Some(msg) && e@ == ErrorView::ConfigError(msg),
        },
{
    let config = match (system, user) {
        (Some(mut sys), Some(user)) => {
            merge_configs(&mut sys, user);
            sys
        },
        (Some(sys), None) => sys,
        (None, Some(user)) => user,
        (None, None) => Config::default(),
    };
    match validate_config(&config) {
        Ok(_) => Ok(config),
        Err(e) => Err(e),
    }
}

/// Overlaying a configuration on itself, or on anything a second time,
/// changes nothing more.
pub proof fn merge_is_idempotent(base: ConfigView, overlay: ConfigView)
    ensures
        merged(merged(base, overlay), overlay) == merged(base, overlay),
        merged(base, base) == base,
{
}

} // verus!
