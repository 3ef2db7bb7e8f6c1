//! Runs Arch Linux packages in an ephemeral sandbox, without installing them.
//!
//! The package manager says which packages a program needs (`layers`); those that are
//! not cached are fetched and unpacked, each into a directory of its own (`fetch`);
//! symbolic links merge them into one tree (`farm`), with paths in shell scripts set to
//! that tree (`scripts`; what both come to is stated in `merge`); the program to run is chosen
//! (`binaries`) and run by `bwrap` over that tree (`sandbox`). `cache` finds an
//! application's cache directory, `sandbox_io` serves file requests below one directory,
//! `commands` holds what the subcommands come to.
//!
//! All of it is plain computation with a proved contract. What the crate takes on trust
//! from other crates stands in `outside`.

pub mod binaries;
pub mod cache;
pub mod commands;
pub mod engine;
pub mod farm;
pub mod fetch;
pub mod layers;
pub mod merge;
pub mod outside;
pub mod paths;
pub mod sandbox;
pub mod sandbox_io;
pub mod scripts;
pub mod text;
