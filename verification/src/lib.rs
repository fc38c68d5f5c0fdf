//! Planning core of a multi-repository debug tool: configuration, dependency order, CMake
//! presets, solution merging and the decisions of every build step, as verified functions
//! over plain values.

pub mod build_fix;
pub mod cli;
pub mod cmake_build_install;
pub mod cmake_configure;
pub mod cmake_configure_laws;
pub mod cmake_presets;
pub mod cmake_presets_laws;
pub mod compile_commands;
pub mod conan_executor;
pub mod conanfile;
pub mod conanfile_laws;
pub mod config;
pub mod dll_copy_util;
pub mod each_repo_command;
pub mod error;
pub mod hash;
pub mod maps;
pub mod package_graph;
pub mod paths;
pub mod repo;
pub mod repo_config;
pub mod repo_laws;
pub mod sln;
pub mod sln_laws;
pub mod sln_merge_again;
pub mod sln_merge_kit;
pub mod sln_merge_laws;
pub mod sln_merge_text;
pub mod sln_round_trip;
pub mod task;
pub mod text;
pub mod text_laws;
pub mod vs_dev_env;
pub mod vs_dev_env_laws;
pub mod workflow;
pub mod workflow_laws;
