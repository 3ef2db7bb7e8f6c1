//! The engine: where the package layers are kept, and the errors of a run.

use crate::outside::{lemma_plain_name, may_hold_caches, project_cache_dir};
use crate::paths::join;
use vstd::prelude::*;
use vstd::utf8::encode_utf8;

verus! {

/// The main orchestration engine for the ephemeral sandbox.
#[derive(Debug)]
pub struct CoreEngine {
    /// The directory that holds one directory per cached package layer.
    pub cache_root: Vec<u8>,
}

/// Why a run fails, apart from failures of the operating system.
#[derive(Debug)]
pub enum EngineError {
    /// The user has no place for caches.
    NoProjectDirs,
    /// The package manager refused the package.
    ResolutionFailed { package: String, reason: String },
    /// The program exited with a failure.
    SandboxFailed { entry_point: String, status: String },
}

impl EngineError {
    /// The text of the message.
    pub open spec fn text(&self) -> Seq<char> {
        match self {
            EngineError::NoProjectDirs =>
                "Could not determine standard project directories for arch-run"@,
            EngineError::ResolutionFailed { package, reason } => "pacman resolution failed for '"@
                + package@ + "': "@ + reason@,
            EngineError::SandboxFailed { entry_point, status } => "Sandbox execution failed for '"@
                + entry_point@ + "' with exit status "@ + status@,
        }
    }

    /// The message for the user.
    pub fn message(&self) -> (m: String)
        ensures
            m@ == self.text(),
    {
        match self {
            EngineError::NoProjectDirs =>
                "Could not determine standard project directories for arch-run".to_owned(),
            EngineError::ResolutionFailed { package, reason } => {
                let mut m = "pacman resolution failed for '".to_owned();
                m.append(package.as_str());
                m.append("': ");
                m.append(reason.as_str());
                m
            },
            EngineError::SandboxFailed { entry_point, status } => {
                let mut m = "Sandbox execution failed for '".to_owned();
                m.append(entry_point.as_str());
                m.append("' with exit status ");
                m.append(status.as_str());
                m
            },
        }
    }
}

impl CoreEngine {
    /// The engine for the cache directory that the system gives the program. Creating
    /// that directory and finding `bwrap` is left to the caller.
    pub fn new() -> (r: Result<CoreEngine, EngineError>)
        ensures
            r matches Ok(engine) ==> exists|parent: Seq<u8>| #[trigger]
                join(parent, encode_utf8("arch-run"@)) == engine.cache_root@ && may_hold_caches(
                    parent,
                ),
            r matches Err(e) ==> e is NoProjectDirs,
    {
        proof {
            reveal_strlit("arch-run");
            lemma_plain_name("arch-run"@);
        }
        CoreEngine::with_cache_dir(project_cache_dir("org", "arch-run", "arch-run"))
    }

    /// The engine for a cache directory, where there is one.
    pub fn with_cache_dir(dir: Option<Vec<u8>>) -> (r: Result<CoreEngine, EngineError>)
        ensures
            r is Ok <==> dir is Some,
            r matches Ok(engine) ==> engine.cache_root@ == dir->0@,
            r matches Err(e) ==> e is NoProjectDirs,
    {
        match dir {
            Some(cache_root) => Ok(CoreEngine { cache_root }),
            None => Err(EngineError::NoProjectDirs),
        }
    }
}

/// A message holds all that the error does, between fixed words.
pub proof fn law_engine_messages(package: String, reason: String)
    ensures
        EngineError::NoProjectDirs.text()
            == "Could not determine standard project directories for arch-run"@,
        (EngineError::ResolutionFailed { package, reason }).text()
            == "pacman resolution failed for '"@ + package@ + "': "@ + reason@,
        (EngineError::SandboxFailed { entry_point: package, status: reason }).text()
            == "Sandbox execution failed for '"@ + package@ + "' with exit status "@ + reason@,
{
}

} // verus!
