use arch_run::engine::{CoreEngine, EngineError};
use arch_run::layers::{pacman_args, PackageLayer};

fn engine() -> CoreEngine {
    CoreEngine { cache_root: b"/home/u/.cache/arch-run".to_vec() }
}

fn shown(l: &PackageLayer) -> (&str, &str, &str, &[u8]) {
    (&l.name, &l.version, &l.url, &l.path)
}

#[test]
fn pacman_is_asked_for_a_listing() {
    assert_eq!(pacman_args("fastfetch"), vec!["-Sp", "--print-format", "%n %v %l", "fastfetch"]);
}

#[test]
fn a_listing_gives_one_layer_per_package() {
    let out = b"glibc 2.40-1 https://m/glibc.pkg.tar.zst\nfastfetch 2.1-1 https://m/fastfetch.pkg.tar.zst\n";
    let layers = engine().resolve_dependencies("fastfetch", true, out, b"").unwrap();
    assert_eq!(layers.len(), 2);
    assert_eq!(
        shown(&layers[0]),
        ("glibc", "2.40-1", "https://m/glibc.pkg.tar.zst", &b"/home/u/.cache/arch-run/glibc-2.40-1"[..])
    );
    assert_eq!(
        shown(&layers[1]),
        ("fastfetch", "2.1-1", "https://m/fastfetch.pkg.tar.zst", &b"/home/u/.cache/arch-run/fastfetch-2.1-1"[..])
    );
}

#[test]
fn other_lines_are_passed_over() {
    let layers = engine().layers_in("warning: something is newer\n\n  a   1\thttp://x  \r\nb 2\nc 3 u extra\nd 4 v");
    let names: Vec<&str> = layers.iter().map(|l| l.name.as_str()).collect();
    assert_eq!(names, vec!["a", "d"]);
    assert_eq!(layers[0].url, "http://x");
    assert_eq!(layers[1].url, "v");
}

#[test]
fn printed_packages_are_read_back() {
    let packages = [("a", "1-1", "u1"), ("b-c", "2:3-4", "file:///x"), ("a", "1-1", "u1")];
    let mut listing = String::new();
    for (n, v, l) in packages {
        listing.push_str(&format!("{n} {v} {l}\n"));
    }
    let layers = engine().layers_in(&listing);
    assert_eq!(layers.len(), 3);
    for (layer, (n, v, l)) in layers.iter().zip(packages) {
        assert_eq!((layer.name.as_str(), layer.version.as_str(), layer.url.as_str()), (n, v, l));
        assert_eq!(layer.path, format!("/home/u/.cache/arch-run/{n}-{v}").into_bytes());
    }
}

#[test]
fn bytes_that_are_no_text_are_repaired() {
    let layers = engine().resolve_dependencies("x", true, b"a\xff 1 u\n", b"").unwrap();
    assert_eq!(layers[0].name, "a\u{fffd}");
    assert_eq!(layers[0].path, "/home/u/.cache/arch-run/a\u{fffd}-1".as_bytes());
}

#[test]
fn a_refused_package_is_reported() {
    let error = engine().resolve_dependencies("nope", false, b"a 1 u\n", b"\n error: target not found: nope \n").unwrap_err();
    assert!(matches!(&error, EngineError::ResolutionFailed { package, .. } if package == "nope"));
    assert_eq!(error.message(), "pacman resolution failed for 'nope': error: target not found: nope");
}

#[test]
fn an_absolute_name_leaves_the_cache() {
    let layers = engine().layers_in("/abs 1 u\n");
    assert_eq!(layers[0].path, b"/abs-1");
}

#[test]
fn copies_of_layers_hold_the_same() {
    let layer = engine().layers_in("a 1 u").remove(0);
    assert_eq!(shown(&layer.clone()), shown(&layer));
}

#[test]
fn the_engine_lives_in_its_own_cache_directory() {
    match CoreEngine::new() {
        Ok(engine) => assert!(engine.cache_root.ends_with(b"/arch-run")),
        Err(error) => {
            assert_eq!(error.message(), "Could not determine standard project directories for arch-run")
        }
    }
    assert_eq!(CoreEngine::with_cache_dir(Some(b"/c".to_vec())).unwrap().cache_root, b"/c");
    assert!(matches!(CoreEngine::with_cache_dir(None), Err(EngineError::NoProjectDirs)));
}
