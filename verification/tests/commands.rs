use arch_run::commands::{
    level_filter, list_entry, list_footer, list_line, plan_prune, shows_targets, PruneAction,
};
use arch_run::engine::CoreEngine;

#[test]
fn verbosity_sets_the_log_level() {
    assert_eq!(level_filter(0), "warn");
    assert_eq!(level_filter(1), "info");
    assert_eq!(level_filter(2), "debug");
    assert_eq!(level_filter(3), "trace");
    assert_eq!(level_filter(255), "trace");
    assert!(!shows_targets(0));
    assert!(!shows_targets(1));
    assert!(shows_targets(2));
}

#[test]
fn pruning_needs_all() {
    assert_eq!(plan_prune(true, true), PruneAction::Clear);
    assert_eq!(plan_prune(true, false), PruneAction::Decline);
    assert_eq!(plan_prune(false, true), PruneAction::NothingThere);
    assert_eq!(plan_prune(false, false), PruneAction::NothingThere);
}

#[test]
fn layers_are_listed() {
    let engine = CoreEngine { cache_root: b"/c/arch-run".to_vec() };
    assert_eq!(engine.list_header(), "Cached Layers in /c/arch-run:");
    assert_eq!(list_entry(b"glibc-2.40-1", true), Some("  - glibc-2.40-1".to_string()));
    assert_eq!(list_entry(b"glibc-2.40-1.part", false), None);
    assert_eq!(list_entry(b".tmpAbc123", true), None);
    assert_eq!(list_entry(b"x\xff", true), Some("  - x\u{fffd}".to_string()));
    assert_eq!(list_line(".tm", true), Some("  - .tm".to_string()));
    assert_eq!(list_footer(0), Some("  (Cache is empty)"));
    assert_eq!(list_footer(1), None);
}
