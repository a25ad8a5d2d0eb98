//! The settings of a run.
use vstd::prelude::*;
use vstd::string::StringExecFns;

verus! {

/// The threshold that applies when none is given: one hour.
pub const DEFAULT_MIN_AGE_MINUTES: u32 = 60;

/// Why a set of settings was turned down.
#[derive(Clone, Copy, Debug, PartialEq, Eq, Structural)]
pub enum ConfigError {
    /// No root path was given.
    MissingRootPath,
}

impl ConfigError {
    /// The words that report the error.
    pub open spec fn text(self) -> Seq<char> {
        "A root path must be specified."@
    }

    /// Computes [`ConfigError::text`].
    pub fn message(&self) -> (s: String)
        ensures
            s@ == self.text(),
    {
        String::from_str("A root path must be specified.")
    }
}

/// The settings of a run: where to start, how old a file must be, and whether
/// anything is removed at all.
#[derive(Debug, PartialEq, Eq)]
pub struct Config {
    root_path: String,
    min_age_minutes: u32,
    delete_enabled: bool,
}

/// The mathematical content of a [`Config`].
pub struct ConfigView {
    pub root_path: Seq<char>,
    pub min_age_minutes: u32,
    pub delete_enabled: bool,
}

impl View for Config {
    type V = ConfigView;

    closed spec fn view(&self) -> ConfigView {
        ConfigView {
            root_path: self.root_path@,
            min_age_minutes: self.min_age_minutes,
            delete_enabled: self.delete_enabled,
        }
    }
}

impl Config {
    #[verifier::type_invariant]
    spec fn has_root(self) -> bool {
        self.root_path@.len() > 0
    }

    /// Settings with the given root path.  An empty root path is turned down.
    pub fn new(root_path: String, min_age_minutes: u32, delete_enabled: bool) -> (r: Result<
        Config,
        ConfigError,
    >)
        ensures
            match r {
                Ok(config) => root_path@.len() > 0 && config@ == (ConfigView {
                    root_path: root_path@,
                    min_age_minutes,
                    delete_enabled,
                }),
                Err(e) => root_path@.len() == 0 && e == ConfigError::MissingRootPath,
            },
    {
        if root_path.as_str().is_empty() {
            Err(ConfigError::MissingRootPath)
        } else {
            Ok(Config { root_path, min_age_minutes, delete_enabled })
        }
    }

    /// Settings with the given root path, the default threshold, and nothing
    /// removed.
    pub fn with_defaults(root_path: String) -> (r: Result<Config, ConfigError>)
        ensures
            match r {
                Ok(config) => root_path@.len() > 0 && config@ == (ConfigView {
                    root_path: root_path@,
                    min_age_minutes: DEFAULT_MIN_AGE_MINUTES,
                    delete_enabled: false,
                }),
                Err(e) => root_path@.len() == 0 && e == ConfigError::MissingRootPath,
            },
    {
        Config::new(root_path, DEFAULT_MIN_AGE_MINUTES, false)
    }

    /// Where the purge starts.  Never empty.
    pub fn root_path(&self) -> (p: &String)
        ensures
            p@ == self@.root_path,
            p@.len() > 0,
    {
        proof {
            use_type_invariant(self);
        }
        &self.root_path
    }

    /// How many whole minutes a file must have gone unmodified to be removed.
    pub fn min_age_minutes(&self) -> (m: u32)
        ensures
            m == self@.min_age_minutes,
    {
        self.min_age_minutes
    }

    /// Whether anything is removed; if not, the purge only says what it would
    /// remove.
    pub fn delete_enabled(&self) -> (d: bool)
        ensures
            d == self@.delete_enabled,
    {
        self.delete_enabled
    }
}

} // verus!
