use arch_run::binaries::{bin_dir, choose_binary, BinEntry, BinaryError};
use arch_run::engine::CoreEngine;
use arch_run::layers::PackageLayer;

fn layer(name: &str) -> PackageLayer {
    PackageLayer {
        name: name.to_string(),
        version: "1".to_string(),
        url: "u".to_string(),
        path: format!("/c/{name}-1").into_bytes(),
    }
}

fn file(name: &str) -> BinEntry {
    BinEntry { name: name.as_bytes().to_vec(), is_file: true, is_symlink: false }
}

fn link(name: &str) -> BinEntry {
    BinEntry { name: name.as_bytes().to_vec(), is_file: false, is_symlink: true }
}

fn dir(name: &str) -> BinEntry {
    BinEntry { name: name.as_bytes().to_vec(), is_file: false, is_symlink: false }
}

fn resolve(
    pkg: &str,
    listings: Vec<(&str, Option<Vec<BinEntry>>)>,
    bin: Option<&str>,
) -> Result<String, BinaryError> {
    let layers: Vec<PackageLayer> = listings.iter().map(|(name, _)| layer(name)).collect();
    let entries: Vec<Option<Vec<BinEntry>>> = listings.into_iter().map(|(_, e)| e).collect();
    let engine = CoreEngine { cache_root: b"/c".to_vec() };
    engine.resolve_binary_name(pkg, &layers, &entries, bin)
}

fn texts(names: &[&str]) -> Vec<String> {
    names.iter().map(|n| n.to_string()).collect()
}

#[test]
fn programs_are_looked_for_in_usr_bin() {
    assert_eq!(bin_dir(&layer("a")), b"/c/a-1/usr/bin");
}

#[test]
fn the_namesake_is_run() {
    let r = resolve("git", vec![("git", Some(vec![file("gitk"), link("git"), file("git-shell")]))], None);
    assert_eq!(r.unwrap(), "git");
}

#[test]
fn the_only_program_is_run() {
    let r = resolve(
        "ripgrep",
        vec![("pcre2", Some(vec![file("pcre2grep"), file("pcre2test")])), ("ripgrep", Some(vec![dir("sub"), file("rg")]))],
        None,
    );
    assert_eq!(r.unwrap(), "rg");
}

#[test]
fn several_programs_are_ambiguous() {
    let error = resolve("coreutils", vec![("coreutils", Some(vec![file("ls"), file("cp")]))], None).unwrap_err();
    assert_eq!(
        error.message(),
        "Multiple binaries found for package 'coreutils': ls, cp. Use --bin to select one."
    );
}

#[test]
fn an_explicit_program_may_come_from_any_layer() {
    let layers = || vec![("dep", Some(vec![file("tool")])), ("pkg", Some(vec![file("pkg")]))];
    assert_eq!(resolve("pkg", layers(), Some("tool")).unwrap(), "tool");
    let error = resolve("pkg", layers(), Some("other")).unwrap_err();
    assert_eq!(error.message(), "Binary 'other' not found in package 'pkg'. Available binaries: tool, pkg");
    let error = resolve("pkg", vec![("pkg", None)], Some("other")).unwrap_err();
    assert_eq!(error.message(), "Binary 'other' not found in package 'pkg'. No binaries found in any layer");
}

#[test]
fn programs_of_dependencies_are_not_run_unasked() {
    let layers = || vec![("meta", None), ("dep", Some(vec![file("tool")]))];
    let error = resolve("meta", layers(), None).unwrap_err();
    assert_eq!(
        error.message(),
        "No binaries found in primary package 'meta'. Available in dependencies: tool. Use --bin to specify."
    );
    assert_eq!(resolve("meta", layers(), Some("tool")).unwrap(), "tool");
    let error =
        resolve("meta", vec![("d1", Some(vec![file("x")])), ("d2", Some(vec![file("y")])), ("meta", Some(vec![]))], None)
            .unwrap_err();
    assert_eq!(
        error.message(),
        "No binaries found in primary package 'meta'. Available in dependencies: x, y. Use --bin to specify."
    );
}

#[test]
fn a_package_without_programs_is_reported() {
    let error = resolve("fonts", vec![("fonts", Some(vec![dir("d")]))], None).unwrap_err();
    assert!(matches!(&error, BinaryError::NoBinaries { package } if package == "fonts"));
    assert_eq!(
        error.message(),
        "No binaries found for package 'fonts'. The package may not provide executables."
    );
}

#[test]
fn names_that_are_no_text_are_repaired() {
    let entry = BinEntry { name: b"x\xff".to_vec(), is_file: true, is_symlink: false };
    assert_eq!(resolve("p", vec![("p", Some(vec![entry]))], None).unwrap(), "x\u{fffd}");
}

#[test]
fn the_choice_follows_its_order() {
    let r = choose_binary("p", texts(&["a", "p"]), texts(&["p"]), Some("a"));
    assert_eq!(r.unwrap(), "a");
    let r = choose_binary("p", texts(&["a", "b", "p"]), texts(&["b", "p"]), None);
    assert_eq!(r.unwrap(), "p");
    let r = choose_binary("p", texts(&["a", "b"]), texts(&["b"]), None);
    assert_eq!(r.unwrap(), "b");
    assert!(matches!(
        choose_binary("p", texts(&["a"]), texts(&[]), None),
        Err(BinaryError::OnlyInDependencies { .. })
    ));
    assert!(matches!(
        choose_binary("p", texts(&["p", "a"]), texts(&[]), None),
        Err(BinaryError::OnlyInDependencies { .. })
    ));
}
