//! A package manager for the Idris language: the verified core.
//!
//! The library holds the version and constraint algebra that dependency resolution is built
//! on, the grammar of version constraints, package names and identifiers, build targets,
//! manifest checks, the checks made when a source is fetched, the `ipkg` file format,
//! package indices and lockfiles, the dependency resolver, and the plan and job graph of a
//! build.

pub mod text;
pub mod version;
pub mod interval;
pub mod constraint;
pub mod syntax;
pub mod package;
pub mod builds;
pub mod errors;
pub mod resolution;
pub mod fetch;
pub mod ids;
pub mod registry;
pub mod scaffold;
pub mod paths;
pub mod manifest;
pub mod resolve;
pub mod laws;
pub mod ipkg;
pub mod retriever;
pub mod solver;
pub mod invoke;
pub mod plan;
pub mod jobs;
pub mod index;
pub mod lockfile;
