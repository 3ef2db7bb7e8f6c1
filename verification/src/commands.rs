//! Commands: what the program's subcommands and switches come to.

use crate::engine::CoreEngine;
use crate::outside::{lossy, text_of};
use crate::text::{behind_prefix, law_prefix_and_rest, opt_text, strip_text};
use vstd::prelude::*;

verus! {

/// The log level for a number of `--verbose` switches.
pub fn level_filter(verbose: u8) -> (level: &'static str)
    ensures
        level@ == (if verbose == 0 {
            "warn"@
        } else if verbose == 1 {
            "info"@
        } else if verbose == 2 {
            "debug"@
        } else {
            "trace"@
        }),
{
    match verbose {
        0 => "warn",
        1 => "info",
        2 => "debug",
        _ => "trace",
    }
}

/// Whether log lines name the module that they come from.
pub fn shows_targets(verbose: u8) -> (r: bool)
    ensures
        r == (verbose > 1),
{
    verbose > 1
}

/// What pruning the cache comes to.
#[derive(Debug, Clone, Copy, PartialEq, Eq, Structural)]
pub enum PruneAction {
    /// Remove the cache directory and create it again, empty.
    Clear,
    /// Say that only all layers can be removed.
    Decline,
    /// Say that there is no cache directory.
    NothingThere,
}

/// What pruning the cache comes to.
pub fn plan_prune(cache_exists: bool, all: bool) -> (action: PruneAction)
    ensures
        action == (if !cache_exists {
            PruneAction::NothingThere
        } else if all {
            PruneAction::Clear
        } else {
            PruneAction::Decline
        }),
{
    if !cache_exists {
        PruneAction::NothingThere
    } else if all {
        PruneAction::Clear
    } else {
        PruneAction::Decline
    }
}

/// The line for an entry of the cache directory: layers are directories, and those of
/// running sandboxes start with `.tmp` and are no layers.
pub open spec fn listed(name: Seq<char>, is_dir: bool) -> Option<Seq<char>> {
    if is_dir && behind_prefix(name, ".tmp"@) is None {
        Some("  - "@ + name)
    } else {
        None
    }
}

/// The line for an entry of the cache directory that reads as `name`, if it gets one.
pub fn list_line(name: &str, is_dir: bool) -> (line: Option<String>)
    ensures
        opt_text(line) == listed(name@, is_dir),
{
    if is_dir && strip_text(name, ".tmp").is_none() {
        Some("  - ".to_owned().concat(name))
    } else {
        None
    }
}

/// The line for an entry of the cache directory, if it gets one.
pub fn list_entry(name: &[u8], is_dir: bool) -> (line: Option<String>)
    ensures
        opt_text(line) == listed(lossy(name@), is_dir),
{
    let shown = text_of(name);
    list_line(shown.as_str(), is_dir)
}

/// The line behind the layers, given how many there are.
pub fn list_footer(count: usize) -> (line: Option<&'static str>)
    ensures
        line is Some <==> count == 0,
        line matches Some(text) ==> text@ == "  (Cache is empty)"@,
{
    if count == 0 {
        Some("  (Cache is empty)")
    } else {
        None
    }
}

impl CoreEngine {
    /// The line in front of the layers.
    pub fn list_header(&self) -> (line: String)
        ensures
            line@ == "Cached Layers in "@ + lossy(self.cache_root@) + ":"@,
    {
        let shown = text_of(self.cache_root.as_slice());
        "Cached Layers in ".to_owned().concat(shown.as_str()).concat(":")
    }
}

/// A directory of the cache is listed under its name, unless that starts with `.tmp`; what
/// is no directory is not.
pub proof fn law_layers_are_listed(name: Seq<char>, rest: Seq<char>)
    ensures
        listed(name, false) is None,
        listed(".tmp"@ + rest, true) is None,
        !(exists|r: Seq<char>| name == #[trigger] (".tmp"@ + r)) ==> listed(name, true) == Some(
            "  - "@ + name,
        ),
{
    law_prefix_and_rest(".tmp"@ + rest, ".tmp"@, rest);
    law_prefix_and_rest(name, ".tmp"@, rest);
}

} // verus!
