use arch_run::farm::{
    advance_entry, begin_entry, event_fits, link_target, overlay_path, place_entry, points_into_system, relink_target,
    rewrite_target, FarmEvent, FarmStep, Placement,
};

const FARM: &[u8] = b"/c/.tmpX";
const LAYER: &[u8] = b"/c/foo-1";

#[test]
fn entries_keep_their_place() {
    assert!(matches!(place_entry(FARM, LAYER, b"/c/foo-1", true), Placement::Skip));
    assert!(matches!(place_entry(FARM, LAYER, b"/c/bar-1/usr", true), Placement::Skip));
    match place_entry(FARM, LAYER, b"/c/foo-1/usr/bin", true) {
        Placement::Directory { at } => assert_eq!(at, b"/c/.tmpX/usr/bin"),
        other => panic!("{other:?}"),
    }
    for dir in ["etc", "lib", "usr", "var", "opt"] {
        let entry = format!("/c/foo-1/{dir}/x");
        match place_entry(FARM, LAYER, entry.as_bytes(), false) {
            Placement::Link { at } => assert_eq!(at, format!("/c/.tmpX/{dir}/x").into_bytes()),
            other => panic!("{other:?}"),
        }
    }
}

#[test]
fn system_paths_are_told_by_their_components() {
    for p in ["/usr/lib/x", "/usr", "//usr//x", "/etc/x", "/lib/x", "/lib64/x", "/var/x", "/opt/x", "/sbin/x"] {
        assert!(points_into_system(p.as_bytes()), "{p}");
    }
    for p in ["usr/lib", "../usr/x", "/usrx", "/home/u/usr", "/bin/x", "/tmp/arch-run/usr/x", "", "/", "/lib32/x"] {
        assert!(!points_into_system(p.as_bytes()), "{p}");
    }
}

#[test]
fn targets_move_under_the_overlay_once() {
    let moved = rewrite_target(b"/usr/lib/foo/foo").unwrap();
    assert_eq!(moved, b"/tmp/arch-run/usr/lib/foo/foo");
    assert_eq!(rewrite_target(&moved), None);
    assert_eq!(rewrite_target(b"../lib/foo"), None);
    let raw = rewrite_target(b"/var/\xff").unwrap();
    assert_eq!(raw, b"/tmp/arch-run/var/\xff");
    assert_eq!(rewrite_target(&raw), None);
    assert_eq!(overlay_path(b"/etc/x"), b"/tmp/arch-run/etc/x");
}

#[test]
fn the_first_layer_wins() {
    assert_eq!(link_target(b"/c/foo-1/usr/bin/foo", true), None);
    assert_eq!(link_target(b"/c/foo-1/usr/bin/foo", false), Some(b"/c/foo-1/usr/bin/foo".to_vec()));
}

#[test]
fn links_of_packages_are_seen_from_the_overlay() {
    assert_eq!(relink_target(&Some(b"/usr/lib/x".to_vec())), Some(b"/tmp/arch-run/usr/lib/x".to_vec()));
    assert_eq!(relink_target(&Some(b"../lib/x".to_vec())), None);
    assert_eq!(relink_target(&None), None);
}

#[test]
fn a_file_leads_to_its_layer_wherever_the_cache_lies() {
    let file = b"/var/cache/arch-run/foo-1/usr/bin/foo";
    let step = begin_entry(b"/var/cache/arch-run/.tmpX", b"/var/cache/arch-run/foo-1", file, false);
    let step = advance_entry(step, FarmEvent::Taken(false));
    match &step {
        FarmStep::Link { target, at } => {
            assert_eq!(target, file);
            assert_eq!(at, b"/var/cache/arch-run/.tmpX/usr/bin/foo");
        }
        other => panic!("{other:?}"),
    }
    let step = advance_entry(step, FarmEvent::Made);
    assert!(matches!(advance_entry(step, FarmEvent::Points(None)), FarmStep::Done));
}

#[test]
fn a_directory_takes_one_step() {
    let step = begin_entry(FARM, LAYER, b"/c/foo-1/etc", true);
    assert!(matches!(&step, FarmStep::MakeDir { at } if at == b"/c/.tmpX/etc"));
    assert!(event_fits(&step, &FarmEvent::Made));
    assert!(!event_fits(&step, &FarmEvent::Taken(true)));
    assert!(matches!(advance_entry(step, FarmEvent::Made), FarmStep::Done));
}

#[test]
fn a_file_is_linked() {
    let step = begin_entry(FARM, LAYER, b"/c/foo-1/usr/bin/foo", false);
    assert!(matches!(&step, FarmStep::Probe { at, .. } if at == b"/c/.tmpX/usr/bin/foo"));
    let step = advance_entry(step, FarmEvent::Taken(false));
    match &step {
        FarmStep::Link { target, at } => {
            assert_eq!(target, b"/c/foo-1/usr/bin/foo");
            assert_eq!(at, b"/c/.tmpX/usr/bin/foo");
        }
        other => panic!("{other:?}"),
    }
    let step = advance_entry(step, FarmEvent::Made);
    assert!(matches!(&step, FarmStep::ReadLink { source, .. } if source == b"/c/foo-1/usr/bin/foo"));
    let no_link = FarmEvent::Points(None);
    assert!(event_fits(&step, &no_link));
    assert!(matches!(advance_entry(step, no_link), FarmStep::Done));
}

#[test]
fn a_taken_place_is_left_alone() {
    let step = begin_entry(FARM, LAYER, b"/c/foo-1/usr/bin/foo", false);
    let step = advance_entry(step, FarmEvent::Taken(true));
    assert!(matches!(step, FarmStep::Done));
    assert!(!event_fits(&step, &FarmEvent::Made));
}

#[test]
fn an_absolute_link_is_linked_anew() {
    let step = begin_entry(FARM, LAYER, b"/c/foo-1/usr/bin/foo", false);
    let step = advance_entry(step, FarmEvent::Taken(false));
    let step = advance_entry(step, FarmEvent::Made);
    let step = advance_entry(step, FarmEvent::Points(Some(b"/opt/foo/bin/foo".to_vec())));
    match &step {
        FarmStep::Relink { source, target, at } => {
            assert_eq!(source, b"/c/foo-1/usr/bin/foo");
            assert_eq!(target, b"/tmp/arch-run/opt/foo/bin/foo");
            assert_eq!(at, b"/c/.tmpX/usr/bin/foo");
        }
        other => panic!("{other:?}"),
    }
    assert!(matches!(advance_entry(step, FarmEvent::Made), FarmStep::Done));
}
