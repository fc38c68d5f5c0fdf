# repo_debug

Builds several CMake repositories that require one another through Conan, so that they can be
debugged together: it clones what is missing, sorts the repositories by what they require,
installs packages, configures and builds what changed, goes on where an earlier run stopped, and
merges the solutions of Visual Studio into one.

## Layout

- `src/` is the library, verified with Verus. Files, processes, the environment and the user are
  outside of it: functions take what was read, and say what is to be done.
  - `config`, `repo_config`, `cli`: the settings, what is known of each repository, the arguments.
  - `repo`, `each_repo_command`: what a repository needs to be there, bringing it up to date, doing
    the same in each one.
  - `conanfile`, `package_graph`: recipes, what they require, and the order of the build.
  - `task`, `workflow`: tasks that are done once, tasks that rest on a fingerprint, and the steps of
    a session.
  - `conan_executor`, `cmake_presets`, `cmake_configure`, `cmake_build_install`, `build_fix`,
    `vs_dev_env`: packages, presets, configuring, building, repairing a build, the tools.
  - `compile_commands`, `sln`, `sln_round_trip`, `sln_merge_kit`, `sln_merge_again`,
    `sln_merge_text`, `dll_copy_util`: compilation databases, solutions and what merging them
    twice comes to, libraries.
  - `text`, `maps`, `hash`, `paths`, `error`: what the others are made of.
- `app/` is the command line tool around the library.
- `tests/` runs the library on concrete values.

Functions named `law_…` state what holds of several functions at once. Functions that call other
crates or parts of the standard library without a specification say in their comments what is
taken for granted of them.
