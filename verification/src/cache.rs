//! The cache directory: where an application keeps its cache, by precedence.
//!
//! A directory given on the command line comes first, then the one of the variable
//! `APP_CACHE_DIR`, then the one of the configuration file, then the system's.

use crate::outside::{
    directory_name, home_dir, is_own_directory, lossy, may_hold_caches, project_cache_dir,
    project_dir_name, text_of,
};
use crate::paths::{
    absolute, body, components, is_absolute, is_clean, is_under, is_void, join, join_path,
    law_components_are_parted_by_separators, law_join_components, law_join_then_relative,
    law_joining_sets_one_separator, law_nothing_else_is_seen, law_relative_components, lead_len,
    lemma_segment_len, lies_under, opt_path, relative_to, segment_len, starts_at_dot, strip_base,
};
use crate::text::opt_text;
use vstd::prelude::*;
use vstd::slice::slice_to_vec;
use vstd::utf8::{encode_utf8, is_ascii_chars, is_ascii_chars_encode_utf8};

verus! {

/// Strongly-typed schema for the configuration file.
#[derive(Debug)]
pub struct CacheConfig {
    pub cache: CacheSection,
}

/// The section `cache` of the configuration file.
#[derive(Debug)]
pub struct CacheSection {
    pub dir: Option<String>,
}

impl Default for CacheSection {
    fn default() -> (section: CacheSection)
        ensures
            section.dir is None,
    {
        CacheSection { dir: None }
    }
}

/// What the configuration file gave.
#[derive(Debug)]
pub enum ConfigLookup {
    /// There is no such file.
    Absent,
    /// The file could not be read.
    Unreadable { reason: String },
    /// The file is not as the schema wants it.
    Malformed { reason: String },
    /// The file was read.
    Loaded { config: CacheConfig },
}

/// Why no cache directory could be found.
#[derive(Debug)]
pub enum CacheError {
    ConfigUnreadable { reason: String },
    ConfigMalformed { reason: String },
    /// The system gives the application no cache directory.
    NoDefault { app_name: String },
    /// The user's home directory is not known.
    NoHome,
    /// There is something else in the directory's place.
    NotADirectory { path: String },
    /// The directory has no absolute path.
    NotAbsolute { path: String },
}

/// What an error holds.
pub enum CacheFailure {
    ConfigUnreadable { reason: Seq<char> },
    ConfigMalformed { reason: Seq<char> },
    NoDefault { app_name: Seq<char> },
    NoHome,
    NotADirectory { path: Seq<char> },
    NotAbsolute { path: Seq<char> },
}

impl View for CacheError {
    type V = CacheFailure;

    open spec fn view(&self) -> CacheFailure {
        match self {
            CacheError::ConfigUnreadable { reason } => CacheFailure::ConfigUnreadable {
                reason: reason@,
            },
            CacheError::ConfigMalformed { reason } => CacheFailure::ConfigMalformed {
                reason: reason@,
            },
            CacheError::NoDefault { app_name } => CacheFailure::NoDefault { app_name: app_name@ },
            CacheError::NoHome => CacheFailure::NoHome,
            CacheError::NotADirectory { path } => CacheFailure::NotADirectory { path: path@ },
            CacheError::NotAbsolute { path } => CacheFailure::NotAbsolute { path: path@ },
        }
    }
}

impl CacheError {
    /// The text of the message.
    pub open spec fn text(&self) -> Seq<char> {
        match self {
            CacheError::ConfigUnreadable { reason } => reason@,
            CacheError::ConfigMalformed { reason } => reason@,
            CacheError::NoDefault { app_name } =>
                "Could not resolve a default system cache directory for app '"@ + app_name@
                + "'. Please provide a directory via CLI, 'APP_CACHE_DIR' env var, or ensure system XDG paths are set."@,
            CacheError::NoHome => "Failed to determine home directory when expanding `~`"@,
            CacheError::NotADirectory { path } => "Cache path is not a directory: "@ + path@,
            CacheError::NotAbsolute { path } => "Failed to canonicalize cache path: "@ + path@,
        }
    }

    /// The message for the user.
    pub fn message(&self) -> (m: String)
        ensures
            m@ == self.text(),
    {
        match self {
            CacheError::ConfigUnreadable { reason } => reason.clone(),
            CacheError::ConfigMalformed { reason } => reason.clone(),
            CacheError::NoDefault { app_name } => {
                let mut m =
                    "Could not resolve a default system cache directory for app '".to_owned();
                m.append(app_name.as_str());
                m.append(
                    "'. Please provide a directory via CLI, 'APP_CACHE_DIR' env var, or ensure system XDG paths are set.",
                );
                m
            },
            CacheError::NoHome =>
                "Failed to determine home directory when expanding `~`".to_owned(),
            CacheError::NotADirectory { path } => "Cache path is not a directory: ".to_owned().concat(
                path.as_str(),
            ),
            CacheError::NotAbsolute { path } => "Failed to canonicalize cache path: ".to_owned().concat(
                path.as_str(),
            ),
        }
    }
}

/// A directory or an error, as contents.
pub open spec fn outcome(r: Result<Vec<u8>, CacheError>) -> Result<Seq<u8>, CacheFailure> {
    match r {
        Ok(dir) => Ok(dir@),
        Err(e) => Err(e@),
    }
}

/// What the configuration file settles: a directory, an error, or nothing.
pub open spec fn configured(lookup: ConfigLookup) -> Option<Result<Seq<u8>, CacheFailure>> {
    match lookup {
        ConfigLookup::Absent => None,
        ConfigLookup::Unreadable { reason } => Some(
            Err(CacheFailure::ConfigUnreadable { reason: reason@ }),
        ),
        ConfigLookup::Malformed { reason } => Some(
            Err(CacheFailure::ConfigMalformed { reason: reason@ }),
        ),
        ConfigLookup::Loaded { config } => match config.cache.dir {
            Some(dir) => Some(Ok(encode_utf8(dir@))),
            None => None,
        },
    }
}

/// Whether the path starts with `~` as a component of its own.
pub open spec fn starts_at_home(path: Seq<u8>) -> bool {
    lies_under(path, encode_utf8("~"@))
}

/// The path with the home directory in place of a `~` that it starts with.
pub open spec fn expanded(path: Seq<u8>, home: Option<Seq<u8>>) -> Result<Seq<u8>, CacheFailure> {
    if !starts_at_home(path) {
        Ok(path)
    } else {
        match home {
            Some(dir) => Ok(join(dir, relative_to(path, encode_utf8("~"@))->0)),
            None => Err(CacheFailure::NoHome),
        }
    }
}

/// What stands at a path.
#[derive(Debug, Clone, Copy, PartialEq, Eq, Structural)]
pub enum Standing {
    Missing,
    Directory,
    SomethingElse,
}

/// What is to be done to have the cache directory.
#[derive(Debug, Clone, Copy, PartialEq, Eq, Structural)]
pub enum Provision {
    /// Create it, with its parents.
    Create,
    /// Leave it as it is.
    Keep,
}

/// What is to be done to have the directory: it is created where there is nothing, and
/// what is no directory is neither used nor touched.
pub open spec fn provision_for(dir: Seq<u8>, standing: Standing) -> Result<Provision, CacheFailure> {
    match standing {
        Standing::Missing => Ok(Provision::Create),
        Standing::Directory => Ok(Provision::Keep),
        Standing::SomethingElse => Err(CacheFailure::NotADirectory { path: lossy(dir) }),
    }
}

/// What is to be done, or an error, as contents.
pub open spec fn provision_outcome(r: Result<Provision, CacheError>) -> Result<
    Provision,
    CacheFailure,
> {
    match r {
        Ok(provision) => Ok(provision),
        Err(e) => Err(e@),
    }
}

/// What stands at the path once that is done.
pub open spec fn standing_after(standing: Standing, provision: Provision) -> Standing {
    match provision {
        Provision::Create => Standing::Directory,
        Provision::Keep => standing,
    }
}

/// The path that is handed out: the canonical one, where the system gives one, and the
/// directory's own otherwise. It is absolute, or there is none.
pub open spec fn provisioned_path(dir: Seq<u8>, canonical: Option<Seq<u8>>) -> Result<
    Seq<u8>,
    CacheFailure,
> {
    let path = match canonical {
        Some(c) => c,
        None => dir,
    };
    if is_absolute(path) {
        Ok(path)
    } else {
        Err(CacheFailure::NotAbsolute { path: lossy(path) })
    }
}

/// Resolves and safely provisions an application cache directory.
#[derive(Debug)]
pub struct CacheManager {
    override_cli_dir: Option<Vec<u8>>,
    config_path: Option<Vec<u8>>,
    app_name: &'static str,
}

impl CacheManager {
    /// The directory given on the command line.
    pub closed spec fn cli_dir(&self) -> Option<Seq<u8>> {
        opt_path(self.override_cli_dir)
    }

    /// Where the configuration file is to be looked for.
    pub closed spec fn config_file(&self) -> Option<Seq<u8>> {
        opt_path(self.config_path)
    }

    /// The application's name.
    pub closed spec fn app(&self) -> Seq<char> {
        self.app_name@
    }

    /// The directory by precedence, before `~` is expanded. `default` is the system's.
    pub open spec fn resolved(
        &self,
        env_dir: Option<Seq<char>>,
        lookup: ConfigLookup,
        default: Option<Seq<u8>>,
    ) -> Result<Seq<u8>, CacheFailure> {
        if self.cli_dir() is Some {
            Ok(self.cli_dir()->0)
        } else if env_dir is Some {
            Ok(encode_utf8(env_dir->0))
        } else if self.config_file() is Some && configured(lookup) is Some {
            configured(lookup)->0
        } else if default is Some {
            Ok(default->0)
        } else {
            Err(CacheFailure::NoDefault { app_name: self.app() })
        }
    }

    /// The directory by precedence, with `~` expanded.
    pub open spec fn initialized(
        &self,
        env_dir: Option<Seq<char>>,
        lookup: ConfigLookup,
        default: Option<Seq<u8>>,
        home: Option<Seq<u8>>,
    ) -> Result<Seq<u8>, CacheFailure> {
        match self.resolved(env_dir, lookup, default) {
            Ok(dir) => expanded(dir, home),
            Err(e) => Err(e),
        }
    }

    /// The path that is handed out, and what is done to have the directory.
    pub open spec fn completed(
        &self,
        env_dir: Option<Seq<char>>,
        lookup: ConfigLookup,
        default: Option<Seq<u8>>,
        home: Option<Seq<u8>>,
        standing: Standing,
        canonical: Option<Seq<u8>>,
    ) -> Result<(Seq<u8>, Provision), CacheFailure> {
        match self.initialized(env_dir, lookup, default, home) {
            Ok(dir) => match provision_for(dir, standing) {
                Ok(provision) => match provisioned_path(dir, canonical) {
                    Ok(path) => Ok((path, provision)),
                    Err(e) => Err(e),
                },
                Err(e) => Err(e),
            },
            Err(e) => Err(e),
        }
    }

    /// Whether a directory can be the one that the system gives this application.
    pub open spec fn may_be_default(&self, default: Option<Seq<u8>>) -> bool {
        default is Some ==> {
            &&& is_own_directory(default->0, self.app())
            &&& is_ascii_chars(self.app()) ==> project_dir_name(self.app()) == directory_name(
                self.app(),
            )
        }
    }

    /// Create a new CacheManager with standard precedence rules.
    pub fn new(
        app_name: &'static str,
        cli_dir: Option<Vec<u8>>,
        config_path: Option<Vec<u8>>,
    ) -> (manager: CacheManager)
        ensures
            manager.cli_dir() == opt_path(cli_dir),
            manager.config_file() == opt_path(config_path),
            manager.app() == app_name@,
    {
        CacheManager { override_cli_dir: cli_dir, config_path, app_name }
    }

    /// Whether the variable `APP_CACHE_DIR` has a say.
    pub fn needs_env(&self) -> (r: bool)
        ensures
            r == (self.cli_dir() is None),
    {
        self.override_cli_dir.is_none()
    }

    /// The configuration file, where it has a say.
    pub fn config_to_read(&self, env_dir: &Option<String>) -> (path: Option<Vec<u8>>)
        ensures
            opt_path(path) == if self.cli_dir() is None && *env_dir is None {
                self.config_file()
            } else {
                None
            },
    {
        if self.override_cli_dir.is_some() || env_dir.is_some() {
            return None;
        }
        match &self.config_path {
            Some(path) => Some(slice_to_vec(path.as_slice())),
            None => None,
        }
    }

    /// The directory by precedence, where one of the first three sources settles it.
    fn settled(&self, env_dir: &Option<String>, lookup: &ConfigLookup) -> (r: Option<
        Result<Vec<u8>, CacheError>,
    >)
        ensures
            r matches Some(found) ==> forall|default: Option<Seq<u8>>|
                outcome(found) == #[trigger] self.resolved(opt_text(*env_dir), *lookup, default),
            r is None ==> forall|default: Option<Seq<u8>>| #[trigger]
                self.resolved(opt_text(*env_dir), *lookup, default) == match default {
                    Some(dir) => Ok(dir),
                    None => Err(CacheFailure::NoDefault { app_name: self.app() }),
                },
    {
        if let Some(dir) = &self.override_cli_dir {
            return Some(Ok(slice_to_vec(dir.as_slice())));
        }
        if let Some(dir) = env_dir {
            return Some(Ok(slice_to_vec(dir.as_str().as_bytes())));
        }
        if self.config_path.is_some() {
            match lookup {
                ConfigLookup::Absent => {},
                ConfigLookup::Unreadable { reason } => {
                    return Some(Err(CacheError::ConfigUnreadable { reason: reason.clone() }));
                },
                ConfigLookup::Malformed { reason } => {
                    return Some(Err(CacheError::ConfigMalformed { reason: reason.clone() }));
                },
                ConfigLookup::Loaded { config } => {
                    if let Some(dir) = &config.cache.dir {
                        return Some(Ok(slice_to_vec(dir.as_str().as_bytes())));
                    }
                },
            }
        }
        None
    }

    /// The directory by precedence, given the system's.
    pub fn resolve_dir_with(
        &self,
        env_dir: &Option<String>,
        lookup: &ConfigLookup,
        default: Option<Vec<u8>>,
    ) -> (r: Result<Vec<u8>, CacheError>)
        ensures
            outcome(r) == self.resolved(opt_text(*env_dir), *lookup, opt_path(default)),
    {
        match self.settled(env_dir, lookup) {
            Some(found) => found,
            None => match default {
                Some(dir) => Ok(dir),
                None => Err(CacheError::NoDefault { app_name: self.app_name.to_owned() }),
            },
        }
    }

    /// Resolves the cache directory according to strict priority logic (highest to
    /// lowest): the command line, the variable `APP_CACHE_DIR`, the configuration file,
    /// the system's default.
    pub fn resolve_dir(&self, env_dir: &Option<String>, lookup: &ConfigLookup) -> (r: Result<
        Vec<u8>,
        CacheError,
    >)
        ensures
            exists|default: Option<Seq<u8>>|
                outcome(r) == #[trigger] self.resolved(opt_text(*env_dir), *lookup, default)
                    && self.may_be_default(default),
    {
        match self.settled(env_dir, lookup) {
            Some(found) => {
                assert(self.may_be_default(None));
                assert(outcome(found) == self.resolved(opt_text(*env_dir), *lookup, None));
                found
            },
            None => {
                let default = project_cache_dir("", "", self.app_name);
                assert(self.may_be_default(opt_path(default)));
                self.resolve_dir_with(env_dir, lookup, default)
            },
        }
    }

    /// Expands `~` if present at the start of a path, given the home directory.
    pub fn expand_tilde_with(path: &[u8], home: Option<Vec<u8>>) -> (r: Result<Vec<u8>, CacheError>)
        ensures
            outcome(r) == expanded(path@, opt_path(home)),
    {
        match strip_base(path, "~".as_bytes()) {
            Some(rest) => match home {
                Some(dir) => Ok(join_path(dir.as_slice(), rest.as_slice())),
                None => Err(CacheError::NoHome),
            },
            None => Ok(slice_to_vec(path)),
        }
    }

    /// Expands `~` if present at the start of a path.
    pub fn expand_tilde(path: &[u8]) -> (r: Result<Vec<u8>, CacheError>)
        ensures
            exists|home: Option<Seq<u8>>|
                outcome(r) == #[trigger] expanded(path@, home) && (home is Some ==> home->0.len()
                    > 0),
    {
        if !is_under(path, "~".as_bytes()) {
            let r: Result<Vec<u8>, CacheError> = Ok(slice_to_vec(path));
            assert(outcome(r) == expanded(path@, None));
            return r;
        }
        let home = home_dir();
        let ghost dir = opt_path(home);
        let r = CacheManager::expand_tilde_with(path, home);
        assert(outcome(r) == expanded(path@, dir));
        r
    }

    /// The cache directory by precedence, with `~` expanded. Creating it is left to the
    /// caller.
    pub fn init(&self, env_dir: &Option<String>, lookup: &ConfigLookup) -> (r: Result<
        Vec<u8>,
        CacheError,
    >)
        ensures
            exists|default: Option<Seq<u8>>, home: Option<Seq<u8>>|
                outcome(r) == #[trigger] self.initialized(
                    opt_text(*env_dir),
                    *lookup,
                    default,
                    home,
                ) && self.may_be_default(default) && (home is Some ==> home->0.len() > 0),
    {
        let found = self.resolve_dir(env_dir, lookup);
        let ghost default = choose|default: Option<Seq<u8>>|
            outcome(found) == #[trigger] self.resolved(opt_text(*env_dir), *lookup, default)
                && self.may_be_default(default);
        match found {
            Ok(dir) => {
                let r = CacheManager::expand_tilde(dir.as_slice());
                proof {
                    let home = choose|home: Option<Seq<u8>>|
                        outcome(r) == #[trigger] expanded(dir@, home) && (home is Some
                            ==> home->0.len() > 0);
                    assert(outcome(r) == self.initialized(
                        opt_text(*env_dir),
                        *lookup,
                        default,
                        home,
                    ));
                }
                r
            },
            Err(e) => {
                let r: Result<Vec<u8>, CacheError> = Err(e);
                assert(outcome(r) == self.initialized(opt_text(*env_dir), *lookup, default, None));
                r
            },
        }
    }

    /// What is to be done to have the cache directory, from what stands at its path.
    pub fn provision(dir: &[u8], standing: Standing) -> (r: Result<Provision, CacheError>)
        ensures
            provision_outcome(r) == provision_for(dir@, standing),
    {
        match standing {
            Standing::Missing => Ok(Provision::Create),
            Standing::Directory => Ok(Provision::Keep),
            Standing::SomethingElse => Err(CacheError::NotADirectory { path: text_of(dir) }),
        }
    }

    /// The absolute path of the directory that was provisioned: its canonical form, where
    /// the system gives one.
    pub fn provisioned(dir: Vec<u8>, canonical: Option<Vec<u8>>) -> (r: Result<Vec<u8>, CacheError>)
        ensures
            outcome(r) == provisioned_path(dir@, opt_path(canonical)),
    {
        let path = match canonical {
            Some(c) => c,
            None => dir,
        };
        if absolute(path.as_slice()) {
            Ok(path)
        } else {
            Err(CacheError::NotAbsolute { path: text_of(path.as_slice()) })
        }
    }
}

/// A directory on the command line is used, whatever the other sources hold.
pub proof fn law_command_line_comes_first(
    manager: CacheManager,
    env_dir: Option<Seq<char>>,
    lookup: ConfigLookup,
    default: Option<Seq<u8>>,
)
    requires
        manager.cli_dir() is Some,
    ensures
        manager.resolved(env_dir, lookup, default) == Ok::<Seq<u8>, CacheFailure>(
            manager.cli_dir()->0,
        ),
{
}

/// Without one, the variable is used, whatever the configuration file and the system
/// hold; a broken configuration file does not matter.
pub proof fn law_variable_comes_second(
    manager: CacheManager,
    env_dir: Seq<char>,
    lookup: ConfigLookup,
    default: Option<Seq<u8>>,
)
    requires
        manager.cli_dir() is None,
    ensures
        manager.resolved(Some(env_dir), lookup, default) == Ok::<Seq<u8>, CacheFailure>(
            encode_utf8(env_dir),
        ),
{
}

/// Without those, the configuration file decides wherever it settles something, and
/// the system's default decides only where it does not.
pub proof fn law_default_comes_last(
    manager: CacheManager,
    lookup: ConfigLookup,
    default: Option<Seq<u8>>,
)
    requires
        manager.cli_dir() is None,
    ensures
        manager.config_file() is Some && configured(lookup) is Some ==> manager.resolved(
            None,
            lookup,
            default,
        ) == configured(lookup)->0,
        manager.config_file() is None || configured(lookup) is None ==> manager.resolved(
            None,
            lookup,
            default,
        ) == match default {
            Some(dir) => Ok(dir),
            None => Err(CacheFailure::NoDefault { app_name: manager.app() }),
        },
{
}

/// Initializing again, with nothing changed but what the first time did, gives the same
/// path and creates nothing; a directory that was there is left as it is both times.
pub proof fn law_initializing_again_changes_nothing(
    manager: CacheManager,
    env_dir: Option<Seq<char>>,
    lookup: ConfigLookup,
    default: Option<Seq<u8>>,
    home: Option<Seq<u8>>,
    standing: Standing,
    canonical: Option<Seq<u8>>,
)
    requires
        manager.completed(env_dir, lookup, default, home, standing, canonical) is Ok,
    ensures
        ({
            let first = manager.completed(env_dir, lookup, default, home, standing, canonical)->Ok_0;
            let left = standing_after(standing, first.1);
            &&& left is Directory
            &&& standing is Directory ==> first.1 is Keep
            &&& manager.completed(env_dir, lookup, default, home, left, canonical) == Ok::<
                (Seq<u8>, Provision),
                CacheFailure,
            >((first.0, Provision::Keep))
        }),
{
}

/// What is handed out is an absolute path.
pub proof fn law_an_absolute_path_is_handed_out(
    manager: CacheManager,
    env_dir: Option<Seq<char>>,
    lookup: ConfigLookup,
    default: Option<Seq<u8>>,
    home: Option<Seq<u8>>,
    standing: Standing,
    canonical: Option<Seq<u8>>,
)
    ensures
        manager.completed(env_dir, lookup, default, home, standing, canonical) matches Ok(r)
            ==> is_absolute(r.0),
{
}

/// What is no directory is refused, and nothing is done to it.
pub proof fn law_only_a_directory_is_handed_out(
    manager: CacheManager,
    env_dir: Option<Seq<char>>,
    lookup: ConfigLookup,
    default: Option<Seq<u8>>,
    home: Option<Seq<u8>>,
    canonical: Option<Seq<u8>>,
)
    ensures
        manager.completed(
            env_dir,
            lookup,
            default,
            home,
            Standing::SomethingElse,
            canonical,
        ) is Err,
{
}

/// An expanded path names the same place under the home directory that it named under
/// `~`.
pub proof fn law_tilde_stands_for_home(path: Seq<u8>, home: Seq<u8>)
    requires
        starts_at_home(path),
        home.len() > 0,
    ensures
        expanded(path, Some(home)) is Ok,
        components(expanded(path, Some(home))->Ok_0) == components(home) + components(path).skip(1),
{
    reveal_strlit("~");
    is_ascii_chars_encode_utf8("~"@);
    let tilde = encode_utf8("~"@);
    let rest = relative_to(path, tilde)->0;
    law_relative_components(path, tilde);
    law_join_components(home, rest);
    assert(components(tilde).len() == 1) by {
        assert(tilde.skip(0) == tilde);
        reveal_with_fuel(segment_len, 3);
        reveal_with_fuel(body, 3);
    }
}

/// With neither a directory on the command line nor the variable, a configuration file
/// that names a directory decides, as does one that is broken; one that names none does
/// not, nor does a file that is not there or is not to be looked for.
pub proof fn law_configuration_comes_third(
    manager: CacheManager,
    default: Option<Seq<u8>>,
    dir: String,
    reason: String,
)
    requires
        manager.cli_dir() is None,
    ensures
        ({
            let named = ConfigLookup::Loaded {
                config: CacheConfig { cache: CacheSection { dir: Some(dir) } },
            };
            let unnamed = ConfigLookup::Loaded {
                config: CacheConfig { cache: CacheSection { dir: None } },
            };
            let last = match default {
                Some(d) => Ok(d),
                None => Err(CacheFailure::NoDefault { app_name: manager.app() }),
            };
            &&& manager.config_file() is Some ==> {
                &&& manager.resolved(None, named, default) == Ok::<Seq<u8>, CacheFailure>(
                    encode_utf8(dir@),
                )
                &&& manager.resolved(None, ConfigLookup::Unreadable { reason }, default) == Err::<
                    Seq<u8>,
                    CacheFailure,
                >(CacheFailure::ConfigUnreadable { reason: reason@ })
                &&& manager.resolved(None, ConfigLookup::Malformed { reason }, default) == Err::<
                    Seq<u8>,
                    CacheFailure,
                >(CacheFailure::ConfigMalformed { reason: reason@ })
            }
            &&& manager.resolved(None, unnamed, default) == last
            &&& manager.resolved(None, ConfigLookup::Absent, default) == last
            &&& manager.config_file() is None ==> manager.resolved(None, named, default) == last
        }),
{
}

/// A `~` in front gives way to the home directory, and what is behind it is kept, byte for
/// byte; a path that does not start with `~` as a name of its own is kept as it is; and
/// without a home directory there is nothing that `~` could stand for.
pub proof fn law_tilde_gives_way_to_home(home: Seq<u8>, rest: Seq<u8>, path: Seq<u8>)
    requires
        home.len() > 0,
        home[home.len() - 1] != 47,
        is_clean(rest),
        path.len() == 0 || path[0] != 126 || (path.len() > 1 && path[1] != 47),
    ensures
        expanded(seq![126u8, 47u8] + rest, Some(home)) == Ok::<Seq<u8>, CacheFailure>(
            home.push(47) + rest,
        ),
        expanded(seq![126u8, 47u8] + rest, None) == Err::<Seq<u8>, CacheFailure>(
            CacheFailure::NoHome,
        ),
        expanded(path, Some(home)) == Ok::<Seq<u8>, CacheFailure>(path),
        expanded(path, None) == Ok::<Seq<u8>, CacheFailure>(path),
{
    reveal_strlit("~");
    is_ascii_chars_encode_utf8("~"@);
    let tilde = encode_utf8("~"@);
    assert(tilde =~= seq![126u8]);
    law_join_then_relative(tilde, rest);
    assert(tilde.push(47) + rest =~= seq![126u8, 47u8] + rest);
    law_joining_sets_one_separator(home, rest);
    law_nothing_else_is_seen(seq![126u8, 47u8] + rest, tilde);
    law_components_are_parted_by_separators(tilde, tilde, rest);
    assert(components(tilde) == seq![seq![126u8]]);
    if lies_under(path, tilde) {
        lemma_first_component(path);
        assert(components(path).subrange(0, 1)[0] == seq![126u8]);
    }
}

/// A path whose first component is `~` starts with `~` and then ends or has a separator.
proof fn lemma_first_component(path: Seq<u8>)
    requires
        components(path).len() > 0,
        components(path)[0] == seq![126u8],
    ensures
        path.len() > 0,
        path[0] == 126,
        path.len() == 1 || path[1] == 47,
{
    lemma_segment_len(path);
    let n = segment_len(path) as int;
    if lead_len(path) == 1 {
        assert(path.take(1)[0] == 126);
    } else if path.len() > 0 {
        let first = path.take(n);
        assert(n > 0);
        assert(first[0] == path[0]);
        if is_void(first) {
            assert(starts_at_dot(path));
        }
        assert(body(path)[0] == first);
        assert(n == 1);
    }
}

/// Where there is nothing the directory is created, a directory is kept, and anything else
/// is refused under its own name.
pub proof fn law_provision(dir: Seq<u8>)
    ensures
        provision_for(dir, Standing::Missing) == Ok::<Provision, CacheFailure>(Provision::Create),
        provision_for(dir, Standing::Directory) == Ok::<Provision, CacheFailure>(Provision::Keep),
        provision_for(dir, Standing::SomethingElse) == Err::<Provision, CacheFailure>(
            CacheFailure::NotADirectory { path: lossy(dir) },
        ),
{
}

/// The canonical path is handed out where there is one, and the directory's own otherwise;
/// a path that is not absolute is refused under its own name.
pub proof fn law_canonical_path_is_preferred(dir: Seq<u8>, canonical: Seq<u8>)
    ensures
        canonical.len() > 0 && canonical[0] == 47 ==> provisioned_path(dir, Some(canonical)) == Ok::<
            Seq<u8>,
            CacheFailure,
        >(canonical),
        dir.len() > 0 && dir[0] == 47 ==> provisioned_path(dir, None) == Ok::<
            Seq<u8>,
            CacheFailure,
        >(dir),
        dir.len() == 0 || dir[0] != 47 ==> provisioned_path(dir, None) == Err::<
            Seq<u8>,
            CacheFailure,
        >(CacheFailure::NotAbsolute { path: lossy(dir) }),
{
}

/// The directory that was settled is the one that is expanded, and an error stays what it
/// was.
pub proof fn law_settled_directory_is_expanded(
    manager: CacheManager,
    env_dir: Option<Seq<char>>,
    lookup: ConfigLookup,
    default: Option<Seq<u8>>,
    home: Option<Seq<u8>>,
)
    ensures
        manager.resolved(env_dir, lookup, default) matches Ok(dir) ==> manager.initialized(
            env_dir,
            lookup,
            default,
            home,
        ) == expanded(dir, home),
        manager.resolved(env_dir, lookup, default) matches Err(e) ==> manager.initialized(
            env_dir,
            lookup,
            default,
            home,
        ) == Err::<Seq<u8>, CacheFailure>(e),
{
}

/// A message holds all that the error does, and an error is known by all that it holds.
pub proof fn law_cache_messages(text: String, dir: Vec<u8>, error: CacheError, done: Provision)
    ensures
        (CacheError::ConfigUnreadable { reason: text }).text() == text@,
        (CacheError::ConfigMalformed { reason: text }).text() == text@,
        (CacheError::NoDefault { app_name: text }).text()
            == "Could not resolve a default system cache directory for app '"@ + text@
            + "'. Please provide a directory via CLI, 'APP_CACHE_DIR' env var, or ensure system XDG paths are set."@,
        CacheError::NoHome.text() == "Failed to determine home directory when expanding `~`"@,
        (CacheError::NotADirectory { path: text }).text() == "Cache path is not a directory: "@
            + text@,
        (CacheError::NotAbsolute { path: text }).text() == "Failed to canonicalize cache path: "@
            + text@,
        (CacheError::ConfigUnreadable { reason: text })@ == (CacheFailure::ConfigUnreadable {
            reason: text@,
        }),
        (CacheError::ConfigMalformed { reason: text })@ == (CacheFailure::ConfigMalformed {
            reason: text@,
        }),
        (CacheError::NoDefault { app_name: text })@ == (CacheFailure::NoDefault {
            app_name: text@,
        }),
        CacheError::NoHome@ is NoHome,
        (CacheError::NotADirectory { path: text })@ == (CacheFailure::NotADirectory {
            path: text@,
        }),
        (CacheError::NotAbsolute { path: text })@ == (CacheFailure::NotAbsolute { path: text@ }),
        outcome(Ok(dir)) == Ok::<Seq<u8>, CacheFailure>(dir@),
        outcome(Err(error)) == Err::<Seq<u8>, CacheFailure>(error@),
        provision_outcome(Ok(done)) == Ok::<Provision, CacheFailure>(done),
        provision_outcome(Err(error)) == Err::<Provision, CacheFailure>(error@),
{
}

/// A default is the application's own directory in one that can hold caches.
pub proof fn law_default_is_the_applications_own(manager: CacheManager, dir: Seq<u8>)
    requires
        manager.may_be_default(Some(dir)),
    ensures
        exists|parent: Seq<u8>| #[trigger]
            join(parent, encode_utf8(project_dir_name(manager.app()))) == dir && (parent.len() > 0),
{
    let parent = choose|parent: Seq<u8>| #[trigger]
        join(parent, encode_utf8(project_dir_name(manager.app()))) == dir && may_hold_caches(parent);
    assert(parent.len() > 0) by {
        if !is_absolute(parent) {
            let home = choose|home: Seq<u8>|
                home.len() > 0 && #[trigger] join(home, encode_utf8(".cache"@)) == parent;
            reveal_strlit(".cache");
            is_ascii_chars_encode_utf8(".cache"@);
            assert(join(home, encode_utf8(".cache"@)).len() > 0);
        }
    }
}

/// Every path that starts with `~`, alone or in front of a separator, names the same place
/// under the home directory.
pub proof fn law_every_tilde_is_expanded(path: Seq<u8>, home: Seq<u8>)
    requires
        path.len() > 0,
        path[0] == 126,
        path.len() == 1 || path[1] == 47,
        home.len() > 0,
    ensures
        expanded(path, Some(home)) is Ok,
        components(expanded(path, Some(home))->Ok_0) == components(home) + components(path).skip(1),
        expanded(path, None) == Err::<Seq<u8>, CacheFailure>(CacheFailure::NoHome),
{
    reveal_strlit("~");
    is_ascii_chars_encode_utf8("~"@);
    let tilde = encode_utf8("~"@);
    assert(tilde =~= seq![126u8]);
    let rest = if path.len() == 1 {
        Seq::<u8>::empty()
    } else {
        path.skip(2)
    };
    law_components_are_parted_by_separators(tilde, tilde, rest);
    if path.len() == 1 {
        assert(path =~= tilde);
    } else {
        assert(path =~= tilde.push(47) + rest);
    }
    assert(components(tilde) == seq![tilde]);
    assert(components(tilde) =~= components(path).subrange(0, 1));
    law_tilde_stands_for_home(path, home);
}

} // verus!
