//! Dependency resolution and build-source assembly for a small compiled
//! language toolchain: canonical dependency keys, cache decisions, the
//! ordered list of source files handed to the compiler, and the dependency
//! tree shown to users.

pub mod assemble;
pub mod cache;
pub mod config;
pub mod error;
pub mod identity;
pub mod paths;
pub mod text;
pub mod tree;
pub mod update;
