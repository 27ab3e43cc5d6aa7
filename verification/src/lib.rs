//! Core data model and text-processing logic of a package build tool:
//! source identifiers and their URLs, package id specifications, build
//! targets and profiles, build-script output parsing, the conflict cache and
//! the backtracking search of the dependency resolver, and the target
//! filters of the compile command;
//! the unit graph and what a unit links, output file names and collisions,
//! what a finished compilation reports, which executable `run` runs, the
//! checks on a resolution, packaging plans, and the credential decisions of
//! git fetches.

pub mod text;
pub mod url;
pub mod git;
pub mod source_id;
pub mod manifest;
pub mod custom_build;
pub mod package_id_spec;
pub mod compile_mode;
pub mod profiles;
pub mod compiler;
pub mod cargo_compile;
pub mod command_prelude;
pub mod conflict_cache;
pub mod summary;
pub mod build_script_env;
pub mod resolver_context;
pub mod unit_dependencies;
pub mod cargo_package;
pub mod resolver;
pub mod resolve_loop;
pub mod compilation;
pub mod context;
pub mod git_auth;
pub mod file_naming;
pub mod compile_outputs;
pub mod cargo_run;
