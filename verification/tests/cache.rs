use arch_run::cache::{
    CacheConfig, CacheError, CacheManager, CacheSection, ConfigLookup, Provision, Standing,
};

fn loaded(dir: Option<&str>) -> ConfigLookup {
    ConfigLookup::Loaded { config: CacheConfig { cache: CacheSection { dir: dir.map(|d| d.to_string()) } } }
}

fn broken() -> ConfigLookup {
    ConfigLookup::Malformed { reason: "bad".to_string() }
}

fn bytes(s: &str) -> Option<Vec<u8>> {
    Some(s.as_bytes().to_vec())
}

fn text(s: &str) -> Option<String> {
    Some(s.to_string())
}

#[test]
fn the_command_line_comes_first() {
    let manager = CacheManager::new("app", bytes("/cli"), bytes("/conf"));
    assert!(!manager.needs_env());
    assert_eq!(manager.config_to_read(&None), None);
    assert_eq!(manager.resolve_dir_with(&text("/env"), &broken(), bytes("/sys")).unwrap(), b"/cli");
    assert_eq!(manager.init(&text("/env"), &broken()).unwrap(), b"/cli");
}

#[test]
fn the_variable_comes_second() {
    let manager = CacheManager::new("app", None, bytes("/conf"));
    assert!(manager.needs_env());
    assert_eq!(manager.config_to_read(&text("/env")), None);
    assert_eq!(manager.init(&text("/env"), &broken()).unwrap(), b"/env");
}

#[test]
fn the_configuration_comes_third() {
    let manager = CacheManager::new("app", None, bytes("/conf"));
    assert_eq!(manager.config_to_read(&None), bytes("/conf"));
    assert_eq!(manager.resolve_dir_with(&None, &loaded(Some("/toml")), bytes("/sys")).unwrap(), b"/toml");
    assert_eq!(manager.init(&None, &loaded(Some("/toml"))).unwrap(), b"/toml");
    let error = manager.init(&None, &broken()).unwrap_err();
    assert!(matches!(&error, CacheError::ConfigMalformed { reason } if reason == "bad"));
    assert_eq!(error.message(), "bad");
    let unreadable = ConfigLookup::Unreadable { reason: "denied".to_string() };
    let error = manager.resolve_dir(&None, &unreadable).unwrap_err();
    assert!(matches!(&error, CacheError::ConfigUnreadable { reason } if reason == "denied"));
    assert_eq!(error.message(), "denied");
}

#[test]
fn the_system_comes_last() {
    let manager = CacheManager::new("app", None, bytes("/conf"));
    assert_eq!(manager.resolve_dir_with(&None, &loaded(None), bytes("/sys")).unwrap(), b"/sys");
    assert_eq!(manager.resolve_dir_with(&None, &ConfigLookup::Absent, bytes("/sys")).unwrap(), b"/sys");
    let without = CacheManager::new("app", None, None);
    assert_eq!(without.config_to_read(&None), None);
    assert_eq!(without.resolve_dir_with(&None, &broken(), bytes("/sys")).unwrap(), b"/sys");
    let error = without.resolve_dir_with(&None, &ConfigLookup::Absent, None).unwrap_err();
    assert_eq!(
        error.message(),
        "Could not resolve a default system cache directory for app 'app'. Please provide a directory via CLI, \
         'APP_CACHE_DIR' env var, or ensure system XDG paths are set."
    );
}

#[test]
fn the_system_gives_a_directory_of_the_application() {
    match CacheManager::new("My App", None, None).init(&None, &ConfigLookup::Absent) {
        Ok(dir) => assert!(dir.ends_with(b"/myapp")),
        Err(error) => assert!(matches!(error, CacheError::NoDefault { app_name } if app_name == "My App")),
    }
}

#[test]
fn a_tilde_stands_for_home() {
    let home = || bytes("/home/u");
    let expand = |p: &str| CacheManager::expand_tilde_with(p.as_bytes(), home()).unwrap();
    assert_eq!(expand("~/x/y"), b"/home/u/x/y");
    assert_eq!(expand("~//x/"), b"/home/u/x");
    assert_eq!(expand("~"), b"/home/u/");
    assert_eq!(expand("~u/x"), b"~u/x");
    assert_eq!(expand("/a/~"), b"/a/~");
    assert_eq!(expand("a//b/"), b"a//b/");
    assert_eq!(expand("./~/x"), b"./~/x");
    let error = CacheManager::expand_tilde_with(b"~/x", None).unwrap_err();
    assert_eq!(error.message(), "Failed to determine home directory when expanding `~`");
    assert_eq!(CacheManager::expand_tilde_with(b"/x", None).unwrap(), b"/x");
}

#[test]
fn the_home_directory_is_looked_up() {
    match CacheManager::expand_tilde(b"~/cache") {
        Ok(dir) => {
            assert!(dir.ends_with(b"/cache"));
            assert_ne!(dir, b"~/cache");
        }
        Err(error) => assert!(matches!(error, CacheError::NoHome)),
    }
    assert_eq!(CacheManager::expand_tilde(b"/cache").unwrap(), b"/cache");
}

#[test]
fn the_canonical_path_is_preferred() {
    assert_eq!(CacheManager::provisioned(b"a/../b".to_vec(), bytes("/w/b")).unwrap(), b"/w/b");
    assert_eq!(CacheManager::provisioned(b"/b".to_vec(), None).unwrap(), b"/b");
    let error = CacheManager::provisioned(b"a/b".to_vec(), None).unwrap_err();
    assert!(matches!(&error, CacheError::NotAbsolute { path } if path == "a/b"));
    assert_eq!(error.message(), "Failed to canonicalize cache path: a/b");
    assert!(CacheManager::provisioned(Vec::new(), None).is_err());
}

#[test]
fn an_empty_section_has_no_directory() {
    assert!(CacheSection::default().dir.is_none());
}

#[test]
fn a_missing_directory_is_created_once() {
    assert_eq!(CacheManager::provision(b"/t", Standing::Missing).unwrap(), Provision::Create);
    assert_eq!(CacheManager::provision(b"/t", Standing::Directory).unwrap(), Provision::Keep);
}

#[test]
fn a_file_is_no_cache_directory() {
    let manager = CacheManager::new("app", bytes("/t/file"), None);
    let dir = manager.init(&None, &ConfigLookup::Absent).unwrap();
    let error = CacheManager::provision(&dir, Standing::SomethingElse).unwrap_err();
    assert!(matches!(&error, CacheError::NotADirectory { path } if path == "/t/file"));
    assert_eq!(error.message(), "Cache path is not a directory: /t/file");
}

#[test]
fn initializing_again_gives_the_same_path() {
    let manager = CacheManager::new("app", None, bytes("/conf"));
    let first = manager.init(&None, &loaded(Some("~/x"))).ok();
    assert_eq!(manager.init(&None, &loaded(Some("~/x"))).ok(), first);
}

#[test]
fn names_outside_ascii_keep_their_own_directory() {
    let find = |name: &'static str| CacheManager::new(name, None, None).resolve_dir(&None, &ConfigLookup::Absent);
    if let Ok(dir) = find("\u{c4}pp") {
        assert!(dir.ends_with("/\u{e4}pp".as_bytes()));
    }
}
