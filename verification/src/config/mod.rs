//! The settings of a debug session and what is known of its repositories.

pub mod progress;
pub mod settings_laws;
pub mod task_containers;

use crate::cli::RunArgs;
use crate::cmake_build_install::CMakeBuildParallel;
use crate::cmake_configure::{
    self, CMakeConfigureInfo, CMakeConfigureOutput, CMakeDependencyInfo,
};
use crate::cmake_presets;
use crate::compile_commands::CompileCommandsConfig;
use crate::conanfile::{self, DependencyTopologicalInfo};
use crate::error::{Error, FileText};
use crate::hash::HashType;
use crate::maps::{self, TextMap, TextSet};
use crate::package_graph;
use crate::paths::{self, PathContext, PathStyle};
use crate::repo::{self, Download};
use crate::repo_config::{self, RepoConfig, RepoConfigView};
use crate::text;
use vstd::prelude::*;

verus! {

/// What is known of a repository. Paths are told from its root.
pub struct InterruptRepoCache {
    /// Where the repository is.
    pub repo_dir: String,
    /// The toolchain as it was when the packages were installed; building may change the file.
    pub conan_toolchain_hash: HashType,
    pub conan_toolchain_path: String,
    /// Whether the user wants the repository configured.
    pub need_cmake: bool,
    /// Whether the user wants the repository configured afresh.
    pub need_cmake_fresh: bool,
    pub cmake_pkg_name: String,
    pub cmake_binary_dir: String,
    /// The generator that the repository was last configured with.
    pub cmake_generator: String,
    pub install_prefix: String,
    /// Where the configuration of the installed package is.
    pub cmake_pkg_config_dir: String,
    /// The branch the repository was on last time it was brought up to date.
    pub last_local_branch: String,
    /// The branch it was brought up to date with.
    pub last_sync_branch: String,
    /// The fingerprints of tasks, as JSON text.
    pub task_fingerprints: TextMap<String>,
}

/// The content of an [`InterruptRepoCache`].
pub struct RepoCacheView {
    pub repo_dir: Seq<char>,
    pub conan_toolchain_hash: HashType,
    pub conan_toolchain_path: Seq<char>,
    pub need_cmake: bool,
    pub need_cmake_fresh: bool,
    pub cmake_pkg_name: Seq<char>,
    pub cmake_binary_dir: Seq<char>,
    pub cmake_generator: Seq<char>,
    pub install_prefix: Seq<char>,
    pub cmake_pkg_config_dir: Seq<char>,
    pub last_local_branch: Seq<char>,
    pub last_sync_branch: Seq<char>,
    pub task_fingerprints: Map<Seq<char>, Seq<char>>,
}

impl View for InterruptRepoCache {
    type V = RepoCacheView;

    open spec fn view(&self) -> RepoCacheView {
        RepoCacheView {
            repo_dir: self.repo_dir@,
            conan_toolchain_hash: self.conan_toolchain_hash,
            conan_toolchain_path: self.conan_toolchain_path@,
            need_cmake: self.need_cmake,
            need_cmake_fresh: self.need_cmake_fresh,
            cmake_pkg_name: self.cmake_pkg_name@,
            cmake_binary_dir: self.cmake_binary_dir@,
            cmake_generator: self.cmake_generator@,
            install_prefix: self.install_prefix@,
            cmake_pkg_config_dir: self.cmake_pkg_config_dir@,
            last_local_branch: self.last_local_branch@,
            last_sync_branch: self.last_sync_branch@,
            task_fingerprints: self.task_fingerprints@,
        }
    }
}

/// What there is to know of a repository at first.
pub open spec fn fresh_cache() -> RepoCacheView {
    RepoCacheView {
        repo_dir: Seq::empty(),
        conan_toolchain_hash: 0,
        conan_toolchain_path: Seq::empty(),
        need_cmake: false,
        need_cmake_fresh: false,
        cmake_pkg_name: Seq::empty(),
        cmake_binary_dir: Seq::empty(),
        cmake_generator: Seq::empty(),
        install_prefix: Seq::empty(),
        cmake_pkg_config_dir: Seq::empty(),
        last_local_branch: Seq::empty(),
        last_sync_branch: Seq::empty(),
        task_fingerprints: Map::empty(),
    }
}

fn empty_text() -> (r: String)
    ensures
        r@ == Seq::<char>::empty(),
{
    let r = String::new();
    assert(r@ =~= Seq::<char>::empty());
    r
}

impl Default for InterruptRepoCache {
    fn default() -> (r: Self)
        ensures
            r@ == fresh_cache(),
    {
        InterruptRepoCache {
            repo_dir: empty_text(),
            conan_toolchain_hash: 0,
            conan_toolchain_path: empty_text(),
            need_cmake: false,
            need_cmake_fresh: false,
            cmake_pkg_name: empty_text(),
            cmake_binary_dir: empty_text(),
            cmake_generator: empty_text(),
            install_prefix: empty_text(),
            cmake_pkg_config_dir: empty_text(),
            last_local_branch: empty_text(),
            last_sync_branch: empty_text(),
            task_fingerprints: TextMap::new(),
        }
    }
}

/// The generator of a repository as it was kept: one that says nothing was configured with
/// Visual Studio.
pub fn stored_generator(stored: Option<String>) -> (r: String)
    ensures
        r@ == (match stored {
            Some(generator) => generator@,
            None => "Visual Studio"@,
        }),
{
    match stored {
        Some(generator) => generator,
        None => "Visual Studio".to_owned(),
    }
}

/// A path below the root of a repository, as an accessible one.
pub open spec fn in_repo(style: char, cache: RepoCacheView, path: Seq<char>) -> Seq<char> {
    paths::joined_path(style, cache.repo_dir, path)
}

/// A path, told from the root of a repository.
pub open spec fn from_repo(context: PathContext, cache: RepoCacheView, path: Seq<char>) -> Option<
    Seq<char>,
> {
    if paths::absolute_path(context.style_view(), path) {
        paths::relative_path(context.style_view(), path, context.absolute(cache.repo_dir))
    } else {
        paths::relative_path(context.style_view(), path, cache.repo_dir)
    }
}

/// The failure to tell a path from the root of a repository.
pub open spec fn not_relative_message(path: Seq<char>) -> Seq<char> {
    "Failed to get relative path for: "@ + path
}

impl InterruptRepoCache {
    /// A path below the root of the repository, as an accessible one.
    pub fn get_abs_path(&self, style: &PathStyle, relative_path: &str) -> (r: String)
        ensures
            r@ == in_repo(style@, self@, relative_path@),
    {
        paths::join(style, self.repo_dir.as_str(), relative_path)
    }

    /// A path, told from the root of the repository.
    pub fn get_rel_path(&self, context: &PathContext, path: &str) -> (r: Result<String, Error>)
        ensures
            match r {
                Ok(relative) => from_repo(*context, self@, path@) == Some(relative@),
                Err(e) => from_repo(*context, self@, path@) is None && e.message@
                    == not_relative_message(path@),
            },
    {
        let style = context.style();
        let found = if paths::is_absolute(&style, path) {
            let root = context.absolutize(self.repo_dir.as_str());
            paths::diff(&style, path, root.as_str())
        } else {
            paths::diff(&style, path, self.repo_dir.as_str())
        };
        match found {
            Some(relative) => Ok(relative),
            None => Err(Error::about("Failed to get relative path for: ", path)),
        }
    }
}

/// What is kept from one session to the next.
pub struct InterruptCache {
    /// What is known of each repository, by its name.
    pub interrupt_repo_cache: TextMap<InterruptRepoCache>,
    /// The repositories that each task is finished for.
    pub completed_tasks: TextMap<TextSet>,
    /// The branches that repositories were brought up to date with, the latest first.
    pub sync_branch_history: Vec<String>,
}

impl Default for InterruptCache {
    fn default() -> (r: Self)
        ensures
            r.interrupt_repo_cache@ == Map::<Seq<char>, RepoCacheView>::empty(),
            r.completed_tasks@ == Map::<Seq<char>, Set<Seq<char>>>::empty(),
            r.sync_branch_history@ == Seq::<String>::empty(),
    {
        InterruptCache {
            interrupt_repo_cache: TextMap::new(),
            completed_tasks: TextMap::new(),
            sync_branch_history: Vec::new(),
        }
    }
}

/// The settings of a debug session, with what is known of its repositories.
pub struct FileConfig {
    /// The directory of the settings.
    pub work_dir: String,
    /// The file with the settings.
    pub self_file_path: String,
    pub executable: RepoConfig,
    /// The repositories that may be needed.
    pub possible_dependencies: Vec<RepoConfig>,
    /// The names of the repositories under debug.
    pub debug_repo_names: Vec<String>,
    /// The build type.
    pub config: String,
    pub common_conan_options: Vec<String>,
    pub cmake_build_parallel: CMakeBuildParallel,
    pub enable_merge: bool,
    pub need_conan_install: bool,
    pub need_conan_install_update: bool,
    pub compile_commands_config: CompileCommandsConfig,
    pub interrupt_cache: InterruptCache,
    pub dependency_topological_info: DependencyTopologicalInfo,
}

/// The content of a [`FileConfig`].
pub struct FileConfigView {
    pub work_dir: Seq<char>,
    pub self_file_path: Seq<char>,
    pub executable: RepoConfigView,
    pub possible_dependencies: Seq<RepoConfigView>,
    pub debug_repo_names: Seq<Seq<char>>,
    pub config: Seq<char>,
    pub common_conan_options: Seq<Seq<char>>,
    pub cmake_build_parallel: CMakeBuildParallel,
    pub enable_merge: bool,
    pub need_conan_install: bool,
    pub need_conan_install_update: bool,
    pub compile_commands_enabled: bool,
    pub compile_commands_options: Seq<Seq<char>>,
    pub repo_caches: Map<Seq<char>, RepoCacheView>,
    pub completed_tasks: Map<Seq<char>, Set<Seq<char>>>,
    pub sync_branch_history: Seq<Seq<char>>,
    pub package_names: Seq<Seq<char>>,
    pub package_edges: Seq<(int, int)>,
    pub sorted_names: Seq<Seq<char>>,
    pub need_debug_pkgs: Seq<Seq<char>>,
}

impl View for FileConfig {
    type V = FileConfigView;

    open spec fn view(&self) -> FileConfigView {
        FileConfigView {
            work_dir: self.work_dir@,
            self_file_path: self.self_file_path@,
            executable: self.executable@,
            possible_dependencies: repo_config::config_views(self.possible_dependencies@),
            debug_repo_names: text::texts(self.debug_repo_names@),
            config: self.config@,
            common_conan_options: text::texts(self.common_conan_options@),
            cmake_build_parallel: self.cmake_build_parallel,
            enable_merge: self.enable_merge,
            need_conan_install: self.need_conan_install,
            need_conan_install_update: self.need_conan_install_update,
            compile_commands_enabled: self.compile_commands_config.enabled,
            compile_commands_options: text::texts(self.compile_commands_config.options@),
            repo_caches: self.interrupt_cache.interrupt_repo_cache@,
            completed_tasks: self.interrupt_cache.completed_tasks@,
            sync_branch_history: text::texts(self.interrupt_cache.sync_branch_history@),
            package_names: package_graph::graph_names(self.dependency_topological_info.graph),
            package_edges: package_graph::graph_edges(self.dependency_topological_info.graph),
            sorted_names: text::texts(self.dependency_topological_info.sorted_names@),
            need_debug_pkgs: text::texts(self.dependency_topological_info.need_debug_pkgs@),
        }
    }
}

/// The settings that a new file gets.
pub open spec fn default_settings() -> FileConfigView {
    FileConfigView {
        work_dir: Seq::empty(),
        self_file_path: Seq::empty(),
        executable: repo_config::default_config(),
        possible_dependencies: Seq::empty(),
        debug_repo_names: Seq::empty(),
        config: "RelWithDebInfo"@,
        common_conan_options: Seq::empty(),
        cmake_build_parallel: CMakeBuildParallel::Disabled,
        enable_merge: false,
        need_conan_install: false,
        need_conan_install_update: false,
        compile_commands_enabled: false,
        compile_commands_options: Seq::empty(),
        repo_caches: Map::empty(),
        completed_tasks: Map::empty(),
        sync_branch_history: Seq::empty(),
        package_names: Seq::empty(),
        package_edges: Seq::empty(),
        sorted_names: Seq::empty(),
        need_debug_pkgs: Seq::empty(),
    }
}

/// The build types.
pub open spec fn is_build_type(s: Seq<char>) -> bool {
    s == "Debug"@ || s == "Release"@ || s == "RelWithDebInfo"@ || s == "MinSizeRel"@
}

/// The refusal of a build type.
pub open spec fn bad_build_type_message(s: Seq<char>) -> Seq<char> {
    "Invalid config type: "@ + s
        + ". Must be one of: Debug, Release, RelWithDebInfo, MinSizeRel"@
}

fn known_build_type(s: &str) -> (r: bool)
    ensures
        r == is_build_type(s@),
{
    text::same_text(s, "Debug") || text::same_text(s, "Release") || text::same_text(
        s,
        "RelWithDebInfo",
    ) || text::same_text(s, "MinSizeRel")
}

fn bad_build_type(s: &str) -> (r: Error)
    ensures
        r.message@ == bad_build_type_message(s@),
{
    let mut message = "Invalid config type: ".to_owned();
    message.append(s);
    message.append(". Must be one of: Debug, Release, RelWithDebInfo, MinSizeRel");
    Error::new(message.as_str())
}

/// The repository that a full path belongs to: `entries` holds full paths with names, and of
/// those with the same path the last counts.
pub open spec fn owner_of(
    style: char,
    entries: Seq<(Seq<char>, Seq<char>)>,
    full_path: Seq<char>,
) -> Option<Seq<char>>
    decreases entries.len(),
{
    if entries.len() == 0 {
        None
    } else if paths::same_path(style, entries.last().0, full_path) {
        Some(entries.last().1)
    } else {
        owner_of(style, entries.drop_last(), full_path)
    }
}

/// A full path with the name of the repository there.
pub struct RepoPath {
    pub full_path: String,
    pub name: String,
}

/// The content of some repository paths.
pub open spec fn path_entries(map: Seq<RepoPath>) -> Seq<(Seq<char>, Seq<char>)> {
    Seq::new(map.len(), |i: int| (map[i].full_path@, map[i].name@))
}

/// The failure to find a repository.
pub open spec fn no_owner_message(full_path: Seq<char>) -> Seq<char> {
    "No identification name found for directory: "@ + full_path
}

/// The name of the repository in a directory.
pub fn convert_path_dir_to_conan_name(
    context: &PathContext,
    full_path_map: &Vec<RepoPath>,
    path: &str,
) -> (r: Result<String, Error>)
    ensures
        ({
            let full = context.absolute(path@);
            match owner_of(context.style_view(), path_entries(full_path_map@), full) {
                Some(name) => r matches Ok(n) && n@ == name,
                None => r matches Err(e) && e.message@ == no_owner_message(full),
            }
        }),
{
    let full = context.absolutize(path);
    let style = context.style();
    let ghost entries = path_entries(full_path_map@);
    let mut i: usize = full_path_map.len();
    assert(entries.take(i as int) =~= entries);
    while i > 0
        invariant
            i <= full_path_map@.len(),
            full@ == context.absolute(path@),
            style@ == context.style_view(),
            entries == path_entries(full_path_map@),
            owner_of(style@, entries, full@) == owner_of(style@, entries.take(i as int), full@),
        decreases i,
    {
        assert(entries.take(i as int).drop_last() =~= entries.take(i - 1));
        i -= 1;
        assert(entries.take(i + 1).last() == entries[i as int]);
        if paths::is_same(&style, full_path_map[i].full_path.as_str(), full.as_str()) {
            return Ok(full_path_map[i].name.clone());
        }
    }
    Err(Error::about("No identification name found for directory: ", full.as_str()))
}

/// The names of the directories' repositories, as far as there are any.
pub open spec fn owners(
    context: PathContext,
    entries: Seq<(Seq<char>, Seq<char>)>,
    dirs: Seq<Seq<char>>,
) -> Seq<Option<Seq<char>>> {
    dirs.map_values(
        |dir: Seq<char>| owner_of(context.style_view(), entries, context.absolute(dir)),
    )
}

/// The first directory from `from` on that belongs to no repository, or the number of
/// directories.
pub open spec fn first_unowned(found: Seq<Option<Seq<char>>>, from: int) -> int
    decreases found.len() - from,
{
    if from >= found.len() || found[from] is None {
        from
    } else {
        first_unowned(found, from + 1)
    }
}

/// The first directory without a repository is looked for from `from` on.
pub proof fn lemma_first_unowned(found: Seq<Option<Seq<char>>>, from: int)
    requires
        from <= found.len(),
    ensures
        from <= first_unowned(found, from) <= found.len(),
    decreases found.len() - from,
{
    if from < found.len() && found[from] is Some {
        lemma_first_unowned(found, from + 1);
    }
}

/// The names of the repositories that the first `n` directories belong to.
pub open spec fn owner_names(found: Seq<Option<Seq<char>>>, n: int) -> Seq<Seq<char>> {
    Seq::new(n as nat, |i: int| found[i]->0)
}

/// A name put at the end of a list, unless it is there.
pub open spec fn with_name(names: Seq<Seq<char>>, name: Seq<char>) -> Seq<Seq<char>> {
    if names.contains(name) {
        names
    } else {
        names.push(name)
    }
}

/// Names put at the end of a list one after the other, each unless it is there.
pub open spec fn with_names(names: Seq<Seq<char>>, more: Seq<Seq<char>>) -> Seq<Seq<char>>
    decreases more.len(),
{
    if more.len() == 0 {
        names
    } else {
        with_name(with_names(names, more.drop_last()), more.last())
    }
}

/// The list without a name.
pub open spec fn without_name(names: Seq<Seq<char>>, name: Seq<char>) -> Seq<Seq<char>>
    decreases names.len(),
{
    if names.len() == 0 {
        Seq::empty()
    } else {
        let rest = without_name(names.drop_last(), name);
        if names.last() == name {
            rest
        } else {
            rest.push(names.last())
        }
    }
}

/// The list without some names.
pub open spec fn without_names(names: Seq<Seq<char>>, less: Seq<Seq<char>>) -> Seq<Seq<char>>
    decreases less.len(),
{
    if less.len() == 0 {
        names
    } else {
        without_name(without_names(names, less.drop_last()), less.last())
    }
}

/// The list without a name.
pub fn remove_name(names: &Vec<String>, name: &str) -> (r: Vec<String>)
    ensures
        text::texts(r@) == without_name(text::texts(names@), name@),
{
    let ghost all = text::texts(names@);
    let mut out: Vec<String> = Vec::new();
    for i in 0..names.len()
        invariant
            all == text::texts(names@),
            text::texts(out@) == without_name(all.take(i as int), name@),
    {
        assert(all.take(i + 1).drop_last() =~= all.take(i as int));
        if !text::same_text(names[i].as_str(), name) {
            text::push_text(&mut out, names[i].clone());
        }
    }
    assert(all.take(all.len() as int) =~= all);
    out
}

impl FileConfigView {
    /// The first of the possible dependencies with this name.
    pub open spec fn dependency_named(self, name: Seq<char>) -> Option<int> {
        conanfile::first_named(
            self.possible_dependencies.map_values(|c: RepoConfigView| c.identification_name),
            name,
        )
    }

    /// Whether a repository takes part: one that is no possible dependency does.
    pub open spec fn is_enabled(self, name: Seq<char>) -> bool {
        match self.dependency_named(name) {
            Some(i) => self.possible_dependencies[i].enable,
            None => true,
        }
    }

    /// The settings of the repository with this name.
    pub open spec fn settings_of(self, name: Seq<char>) -> Option<RepoConfigView> {
        match self.dependency_named(name) {
            Some(i) => Some(self.possible_dependencies[i]),
            None => if self.executable.identification_name == name {
                Some(self.executable)
            } else {
                None
            },
        }
    }

    /// The full path of each known repository with its name, in the order of the names.
    pub open spec fn full_paths(self, context: PathContext) -> Seq<(Seq<char>, Seq<char>)> {
        maps::ascending_keys(self.repo_caches).map_values(
            |name: Seq<char>| (context.absolute(self.repo_caches[name].repo_dir), name),
        )
    }

    /// The names of the repositories in some directories, as far as there are any.
    pub open spec fn owners_of(self, context: PathContext, dirs: Seq<Seq<char>>) -> Seq<
        Option<Seq<char>>,
    > {
        owners(context, self.full_paths(context), dirs)
    }
}

/// The failure to find a repository.
pub open spec fn unknown_repo_message(name: Seq<char>) -> Seq<char> {
    "Dependency not found: "@ + name
}

/// The failure to find the settings of a repository.
pub open spec fn no_settings_message(name: Seq<char>) -> Seq<char> {
    "RepoConfig not found for: "@ + name
}

impl FileConfig {
    /// The settings that a new file gets.
    pub fn default() -> (r: Self)
        ensures
            r@ == default_settings(),
    {
        let r = FileConfig {
            work_dir: empty_text(),
            self_file_path: empty_text(),
            executable: RepoConfig::empty(),
            possible_dependencies: Vec::new(),
            debug_repo_names: Vec::new(),
            config: "RelWithDebInfo".to_owned(),
            common_conan_options: Vec::new(),
            cmake_build_parallel: CMakeBuildParallel::Disabled,
            enable_merge: false,
            need_conan_install: false,
            need_conan_install_update: false,
            compile_commands_config: CompileCommandsConfig::default(),
            interrupt_cache: InterruptCache::default(),
            dependency_topological_info: DependencyTopologicalInfo::default(),
        };
        assert(r@.possible_dependencies =~= Seq::empty());
        assert(r@.debug_repo_names =~= Seq::empty());
        assert(r@.common_conan_options =~= Seq::empty());
        assert(r@.compile_commands_options =~= Seq::empty());
        assert(r@.sync_branch_history =~= Seq::empty());
        assert(r@.sorted_names =~= Seq::empty());
        assert(r@.need_debug_pkgs =~= Seq::empty());
        r
    }

    fn find_dependency(&self, name: &str) -> (r: Option<usize>)
        ensures
            match r {
                Some(i) => i < self.possible_dependencies@.len() && self@.dependency_named(name@)
                    == Some(i as int),
                None => self@.dependency_named(name@) is None,
            },
    {
        let ghost names = self@.possible_dependencies.map_values(
            |c: RepoConfigView| c.identification_name,
        );
        for i in 0..self.possible_dependencies.len()
            invariant
                names == self@.possible_dependencies.map_values(
                    |c: RepoConfigView| c.identification_name,
                ),
                conanfile::first_named(names.take(i as int), name@) is None,
        {
            assert(names.take(i + 1).drop_last() =~= names.take(i as int));
            if text::same_text(self.possible_dependencies[i].identification_name.as_str(), name) {
                proof {
                    lemma_first_named_prefix(names, name@, i + 1);
                }
                return Some(i);
            }
        }
        assert(names.take(names.len() as int) =~= names);
        None
    }

    /// Whether a repository takes part: one that is no possible dependency does.
    pub fn is_dependency_enabled_in_config(&self, name: &str) -> (r: bool)
        ensures
            r == self@.is_enabled(name@),
    {
        match self.find_dependency(name) {
            Some(i) => self.possible_dependencies[i].enable,
            None => true,
        }
    }

    /// The settings of the repository with this name: a possible dependency, or the executable.
    pub fn get_repo_config(&self, name: &str) -> (r: Result<&RepoConfig, Error>)
        ensures
            match self@.settings_of(name@) {
                Some(config) => r matches Ok(c) && c@ == config,
                None => r matches Err(e) && e.message@ == no_settings_message(name@),
            },
    {
        match self.find_dependency(name) {
            Some(i) => Ok(&self.possible_dependencies[i]),
            None => if text::same_text(self.executable.identification_name.as_str(), name) {
                Ok(&self.executable)
            } else {
                Err(Error::about("RepoConfig not found for: ", name))
            },
        }
    }

    /// What is known of the repository with this name.
    pub fn get_interrupt_repo_cache(&self, name: &str) -> (r: Result<&InterruptRepoCache, Error>)
        ensures
            match r {
                Ok(cache) => self@.repo_caches.contains_key(name@) && cache@
                    == self@.repo_caches[name@],
                Err(e) => !self@.repo_caches.contains_key(name@) && e.message@
                    == unknown_repo_message(name@),
            },
    {
        match self.interrupt_cache.interrupt_repo_cache.get(name) {
            Some(cache) => Ok(cache),
            None => Err(Error::about("Dependency not found: ", name)),
        }
    }

    fn take_repo_cache(&mut self, name: &str) -> (r: Result<InterruptRepoCache, Error>)
        ensures
            match r {
                Ok(cache) => {
                    &&& old(self)@.repo_caches.contains_key(name@)
                    &&& cache@ == old(self)@.repo_caches[name@]
                    &&& final(self)@ == (FileConfigView {
                        repo_caches: old(self)@.repo_caches.remove(name@),
                        ..old(self)@
                    })
                },
                Err(e) => {
                    &&& !old(self)@.repo_caches.contains_key(name@)
                    &&& e.message@ == unknown_repo_message(name@)
                    &&& final(self)@ == old(self)@
                },
            },
    {
        let ghost before = self@.repo_caches;
        match self.interrupt_cache.interrupt_repo_cache.remove(name) {
            Some(cache) => Ok(cache),
            None => {
                assert(before.remove(name@) =~= before);
                Err(Error::about("Dependency not found: ", name))
            },
        }
    }

    fn put_repo_cache(&mut self, name: &str, cache: InterruptRepoCache)
        ensures
            final(self)@ == (FileConfigView {
                repo_caches: old(self)@.repo_caches.insert(name@, cache@),
                ..old(self)@
            }),
    {
        self.interrupt_cache.interrupt_repo_cache.insert(name.to_owned(), cache);
    }

    /// The full path of each known repository with its name, in the order of the names.
    pub fn build_full_path_map(&self, context: &PathContext) -> (r: Vec<RepoPath>)
        ensures
            path_entries(r@) == self@.full_paths(*context),
    {
        let ghost all = self@.full_paths(*context);
        let mut out: Vec<RepoPath> = Vec::new();
        let caches = &self.interrupt_cache.interrupt_repo_cache;
        let count = caches.len();
        for i in 0..count
            invariant
                count == caches.keys().len(),
                all == self@.full_paths(*context),
                caches == &self.interrupt_cache.interrupt_repo_cache,
                caches.keys() == maps::ascending_keys(self@.repo_caches),
                path_entries(out@) == all.take(i as int),
        {
            let full_path = context.absolutize(caches.value_at(i).repo_dir.as_str());
            let ghost before = out@;
            out.push(RepoPath { full_path, name: caches.key_at(i).clone() });
            assert(path_entries(out@) =~= path_entries(before).push(all[i as int]));
            assert(all.take(i + 1) =~= all.take(i as int).push(all[i as int]));
        }
        assert(all.take(all.len() as int) =~= all);
        out
    }

    /// Puts the repositories of some directories under debug, one after the other; a directory
    /// that belongs to no repository ends it.
    pub fn apply_config_add(&mut self, context: &PathContext, add_deps: &Vec<String>) -> (r: Result<
        (),
        Error,
    >)
        ensures
            ({
                let found = old(self)@.owners_of(*context, text::texts(add_deps@));
                let n = first_unowned(found, 0);
                &&& final(self)@ == (FileConfigView {
                    debug_repo_names: with_names(
                        old(self)@.debug_repo_names,
                        owner_names(found, n),
                    ),
                    ..old(self)@
                })
                &&& if n >= found.len() {
                    r is Ok
                } else {
                    r matches Err(e) && e.message@ == no_owner_message(
                        context.absolute(add_deps@[n]@),
                    )
                }
            }),
    {
        let map = self.build_full_path_map(context);
        let ghost found = self@.owners_of(*context, text::texts(add_deps@));
        for i in 0..add_deps.len()
            invariant
                found == old(self)@.owners_of(*context, text::texts(add_deps@)),
                path_entries(map@) == old(self)@.full_paths(*context),
                first_unowned(found, 0) == first_unowned(found, i as int),
                self@ == (FileConfigView {
                    debug_repo_names: with_names(
                        old(self)@.debug_repo_names,
                        owner_names(found, i as int),
                    ),
                    ..old(self)@
                }),
        {
            assert(text::texts(add_deps@)[i as int] == add_deps@[i as int]@);
            let name = match convert_path_dir_to_conan_name(context, &map, add_deps[i].as_str()) {
                Ok(name) => name,
                Err(e) => {
                    return Err(e);
                },
            };
            proof {
                assert(owner_names(found, i + 1).drop_last() =~= owner_names(found, i as int));
                assert(owner_names(found, i + 1).last() == name@);
            }
            if !text::texts_contain(&self.debug_repo_names, name.as_str()) {
                text::push_text(&mut self.debug_repo_names, name);
            }
        }
        Ok(())
    }

    /// Takes the repositories of some directories from under debug, one after the other; a
    /// directory that belongs to no repository ends it.
    pub fn apply_config_remove(&mut self, context: &PathContext, remove_deps: &Vec<String>) -> (r:
        Result<(), Error>)
        ensures
            ({
                let found = old(self)@.owners_of(*context, text::texts(remove_deps@));
                let n = first_unowned(found, 0);
                &&& final(self)@ == (FileConfigView {
                    debug_repo_names: without_names(
                        old(self)@.debug_repo_names,
                        owner_names(found, n),
                    ),
                    ..old(self)@
                })
                &&& if n >= found.len() {
                    r is Ok
                } else {
                    r matches Err(e) && e.message@ == no_owner_message(
                        context.absolute(remove_deps@[n]@),
                    )
                }
            }),
    {
        let map = self.build_full_path_map(context);
        let ghost found = self@.owners_of(*context, text::texts(remove_deps@));
        for i in 0..remove_deps.len()
            invariant
                found == old(self)@.owners_of(*context, text::texts(remove_deps@)),
                path_entries(map@) == old(self)@.full_paths(*context),
                first_unowned(found, 0) == first_unowned(found, i as int),
                self@ == (FileConfigView {
                    debug_repo_names: without_names(
                        old(self)@.debug_repo_names,
                        owner_names(found, i as int),
                    ),
                    ..old(self)@
                }),
        {
            assert(text::texts(remove_deps@)[i as int] == remove_deps@[i as int]@);
            let name = match convert_path_dir_to_conan_name(
                context,
                &map,
                remove_deps[i].as_str(),
            ) {
                Ok(name) => name,
                Err(e) => {
                    return Err(e);
                },
            };
            proof {
                assert(owner_names(found, i + 1).drop_last() =~= owner_names(found, i as int));
                assert(owner_names(found, i + 1).last() == name@);
            }
            self.debug_repo_names = remove_name(&self.debug_repo_names, name.as_str());
        }
        Ok(())
    }

    /// Sets the build type. One that is none is refused; where there was none yet, the default
    /// stands then.
    pub fn set_build_type(&mut self, build_type: &str) -> (r: Result<(), Error>)
        ensures
            ({
                let before = old(self)@.config;
                let kept = if before.len() == 0 {
                    "RelWithDebInfo"@
                } else {
                    before
                };
                &&& final(self)@ == (FileConfigView {
                    config: if is_build_type(build_type@) {
                        build_type@
                    } else {
                        kept
                    },
                    ..old(self)@
                })
                &&& match r {
                    Ok(_) => is_build_type(build_type@),
                    Err(e) => !is_build_type(build_type@) && e.message@ == bad_build_type_message(
                        build_type@,
                    ),
                }
            }),
    {
        if text::is_empty(self.config.as_str()) {
            self.config = "RelWithDebInfo".to_owned();
        }
        if !known_build_type(build_type) {
            return Err(bad_build_type(build_type));
        }
        self.config = build_type.to_owned();
        Ok(())
    }

    /// Whether the settings make sense: the build type is one or not given, and so many jobs are
    /// not none.
    pub fn validate(&self) -> (r: Result<(), Error>)
        ensures
            if !is_build_type(self@.config) && self@.config.len() > 0 {
                r matches Err(e) && e.message@ == bad_build_type_message(self@.config)
            } else if self@.cmake_build_parallel == CMakeBuildParallel::Jobs(0) {
                r matches Err(e) && e.message@
                    == "cmake_build_parallel must be a positive integer when set to a number"@
            } else {
                r is Ok
            },
    {
        if !known_build_type(self.config.as_str()) && !text::is_empty(self.config.as_str()) {
            return Err(bad_build_type(self.config.as_str()));
        }
        if let CMakeBuildParallel::Jobs(0) = self.cmake_build_parallel {
            return Err(
                Error::new("cmake_build_parallel must be a positive integer when set to a number"),
            );
        }
        Ok(())
    }
}

proof fn lemma_first_named_prefix(names: Seq<Seq<char>>, name: Seq<char>, n: int)
    requires
        0 <= n <= names.len(),
        conanfile::first_named(names.take(n), name) is Some,
    ensures
        conanfile::first_named(names, name) == conanfile::first_named(names.take(n), name),
    decreases names.len(),
{
    if n == names.len() {
        assert(names.take(n) =~= names);
    } else {
        assert(names.drop_last().take(n) =~= names.take(n));
        lemma_first_named_prefix(names.drop_last(), name, n);
    }
}

impl FileConfigView {
    /// The settings of a repository: of the executable, and then of each possible dependency.
    pub open spec fn settings_at(self, i: int) -> RepoConfigView {
        if i == 0 {
            self.executable
        } else {
            self.possible_dependencies[i - 1]
        }
    }

    /// The name by which a repository with this recipe is known.
    pub open spec fn name_at(self, recipes: Seq<FileText>, i: int) -> Option<Seq<char>> {
        repo::identification_of(recipes[i], self.settings_at(i).url)
    }

    /// The first repository from `from` on without a name, or the number of repositories.
    pub open spec fn first_nameless(self, recipes: Seq<FileText>, from: int) -> int
        decreases recipes.len() - from,
    {
        if from >= recipes.len() || self.name_at(recipes, from) is None {
            from
        } else {
            self.first_nameless(recipes, from + 1)
        }
    }

    /// What is known of the repositories once the first `n` are registered: where each is, and
    /// what was known of it before.
    pub open spec fn caches_until(self, style: char, recipes: Seq<FileText>, n: int) -> Map<
        Seq<char>,
        RepoCacheView,
    >
        decreases n,
    {
        if n <= 0 {
            self.repo_caches
        } else {
            let known = self.caches_until(style, recipes, n - 1);
            let name = self.name_at(recipes, n - 1)->0;
            let before = if known.contains_key(name) {
                known[name]
            } else {
                fresh_cache()
            };
            let dir = paths::joined_path(style, self.work_dir, self.settings_at(n - 1).path);
            known.insert(name, RepoCacheView { repo_dir: dir, ..before })
        }
    }

    /// The settings once the first `n` repositories are registered.
    pub open spec fn registered_until(
        self,
        style: char,
        recipes: Seq<FileText>,
        n: int,
    ) -> FileConfigView {
        FileConfigView {
            executable: if n > 0 {
                RepoConfigView {
                    identification_name: self.name_at(recipes, 0)->0,
                    ..self.executable
                }
            } else {
                self.executable
            },
            possible_dependencies: Seq::new(
                self.possible_dependencies.len(),
                |i: int|
                    if i + 1 < n {
                        RepoConfigView {
                            identification_name: self.name_at(recipes, i + 1)->0,
                            ..self.possible_dependencies[i]
                        }
                    } else {
                        self.possible_dependencies[i]
                    },
            ),
            repo_caches: self.caches_until(style, recipes, n),
            ..self
        }
    }

    /// The settings once what is there of the repositories is taken.
    pub open spec fn settled(self, style: char, present: Seq<Seq<char>>) -> FileConfigView {
        let step = repo::repo_step(style, self.executable, self.work_dir, present);
        FileConfigView {
            executable: repo::after_step(self.executable, step),
            possible_dependencies: if repo::is_settled(step) {
                repo::settled_until(
                    style,
                    self.possible_dependencies,
                    self.work_dir,
                    present,
                    false,
                    repo::first_unsettled(
                        style,
                        self.possible_dependencies,
                        self.work_dir,
                        present,
                        false,
                        0,
                    ) + 1,
                )
            } else {
                self.possible_dependencies
            },
            ..self
        }
    }

    /// The first repository that is not there, with what it needs; `None` where all are.
    pub open spec fn missing_repo(self, style: char, present: Seq<Seq<char>>) -> Option<
        (RepoConfigView, repo::RepoStep),
    > {
        let step = repo::repo_step(style, self.executable, self.work_dir, present);
        let n = repo::first_unsettled(
            style,
            self.possible_dependencies,
            self.work_dir,
            present,
            false,
            0,
        );
        if !repo::is_settled(step) {
            Some((self.executable, step))
        } else if n < self.possible_dependencies.len() {
            Some(
                (
                    self.possible_dependencies[n],
                    repo::step_at(
                        style,
                        self.possible_dependencies,
                        self.work_dir,
                        present,
                        false,
                        n,
                    ),
                ),
            )
        } else {
            None
        }
    }
}

/// Sets down where a repository is.
fn register(
    caches: &mut TextMap<InterruptRepoCache>,
    name: &str,
    repo_dir: String,
)
    ensures
        final(caches)@ == ({
            let known = old(caches)@;
            let before = if known.contains_key(name@) {
                known[name@]
            } else {
                fresh_cache()
            };
            known.insert(name@, RepoCacheView { repo_dir: repo_dir@, ..before })
        }),
{
    let ghost known = caches@;
    let mut cache = match caches.remove(name) {
        Some(cache) => cache,
        None => InterruptRepoCache::default(),
    };
    cache.repo_dir = repo_dir;
    caches.insert(name.to_owned(), cache);
    assert(caches@ =~= known.insert(name@, cache@));
}

/// Gives a repository its name and sets down where it is.
fn name_and_register(
    style: &PathStyle,
    work_dir: &str,
    recipe: &FileText,
    repo_cfg: &mut RepoConfig,
    caches: &mut TextMap<InterruptRepoCache>,
) -> (r: Result<(), Error>)
    ensures
        ({
            let config = old(repo_cfg)@;
            let known = old(caches)@;
            match repo::identification_of(*recipe, config.url) {
                Some(name) => {
                    let before = if known.contains_key(name) {
                        known[name]
                    } else {
                        fresh_cache()
                    };
                    let dir = paths::joined_path(style@, work_dir@, config.path);
                    &&& r is Ok
                    &&& final(repo_cfg)@ == (RepoConfigView {
                        identification_name: name,
                        ..config
                    })
                    &&& final(caches)@ == known.insert(
                        name,
                        RepoCacheView { repo_dir: dir, ..before },
                    )
                },
                None => {
                    &&& r matches Err(e)
                    &&& e.message@ == repo::no_name_message(config.url)
                    &&& final(repo_cfg)@ == config
                    &&& final(caches)@ == known
                },
            }
        }),
{
    let name = match repo::get_identification_name(recipe, repo_cfg.url.as_str()) {
        Ok(name) => name,
        Err(e) => {
            return Err(e);
        },
    };
    register(caches, name.as_str(), paths::join(style, work_dir, repo_cfg.path.as_str()));
    repo_cfg.identification_name = name;
    Ok(())
}

impl FileConfig {
    /// Sees to it that the repositories that take part are there, the executable first: takes
    /// what is there already, and says what to download for the first that is not. A repository
    /// that cannot be there ends it.
    pub fn ensure_repositories(&mut self, style: &PathStyle, present: &Vec<String>) -> (r: Result<
        Option<Download>,
        Error,
    >)
        ensures
            final(self)@ == old(self)@.settled(style@, text::texts(present@)),
            match old(self)@.missing_repo(style@, text::texts(present@)) {
                None => r matches Ok(None),
                Some((config, step)) => match step {
                    repo::RepoStep::Refuse(reason) => r matches Err(e) && e.message@ == reason,
                    repo::RepoStep::Fetch(name) => r matches Ok(Some(d)) && repo::is_download(
                        d,
                        style@,
                        config.url,
                        old(self)@.work_dir,
                        name,
                    ),
                    _ => false,
                },
            },
    {
        match repo::ensure_repo_preset(
            style,
            &mut self.executable,
            self.work_dir.as_str(),
            present,
        ) {
            Ok(None) => {},
            Ok(Some(download)) => {
                return Ok(Some(download));
            },
            Err(e) => {
                return Err(e);
            },
        }
        repo::ensure_enabled_repositories(
            style,
            &mut self.possible_dependencies,
            self.work_dir.as_str(),
            present,
        )
    }

    /// The paths of which [`FileConfig::ensure_repositories`] wants to know whether they are
    /// there.
    pub fn wanted_paths(&self, style: &PathStyle) -> (r: Vec<String>)
        ensures
            text::texts(r@) == self@.wanted(style@, self@.possible_dependencies.len() as int),
    {
        let mut out = repo::wanted_paths(style, &self.executable, self.work_dir.as_str());
        for i in 0..self.possible_dependencies.len()
            invariant
                text::texts(out@) == self@.wanted(style@, i as int),
        {
            let more = repo::wanted_paths(
                style,
                &self.possible_dependencies[i],
                self.work_dir.as_str(),
            );
            text::append_texts(&mut out, &more);
        }
        out
    }

    /// Gives each repository its name and sets down where it is, the executable first; `recipes`
    /// are their recipes in that order. A repository without a name ends it.
    pub fn update_repo_path(&mut self, style: &PathStyle, recipes: &Vec<FileText>) -> (r: Result<
        (),
        Error,
    >)
        requires
            recipes@.len() == old(self)@.possible_dependencies.len() + 1,
        ensures
            ({
                let before = old(self)@;
                let n = before.first_nameless(recipes@, 0);
                &&& final(self)@ == before.registered_until(style@, recipes@, n)
                &&& if n >= recipes@.len() {
                    r is Ok
                } else {
                    r matches Err(e) && e.message@ == repo::no_name_message(
                        before.settings_at(n).url,
                    )
                }
            }),
    {
        let ghost before = self@;
        assert(before.possible_dependencies =~= before.registered_until(
            style@,
            recipes@,
            0,
        ).possible_dependencies);
        match name_and_register(
            style,
            self.work_dir.as_str(),
            &recipes[0],
            &mut self.executable,
            &mut self.interrupt_cache.interrupt_repo_cache,
        ) {
            Ok(_) => {},
            Err(e) => {
                return Err(e);
            },
        }
        let count = self.possible_dependencies.len();
        proof {
            reveal_with_fuel(FileConfigView::caches_until, 2);
            reveal_with_fuel(FileConfigView::first_nameless, 2);
            assert(before.possible_dependencies =~= before.registered_until(
                style@,
                recipes@,
                1,
            ).possible_dependencies);
        }
        for i in 0..count
            invariant
                before == old(self)@,
                count == before.possible_dependencies.len(),
                recipes@.len() == count + 1,
                self.possible_dependencies@.len() == count,
                self@ == before.registered_until(style@, recipes@, i + 1),
                before.first_nameless(recipes@, 0) == before.first_nameless(recipes@, i + 1),
        {
            let ghost was = self@.possible_dependencies;
            assert(was[i as int] == before.possible_dependencies[i as int]);
            let outcome = name_and_register(
                style,
                self.work_dir.as_str(),
                &recipes[i + 1],
                &mut self.possible_dependencies[i],
                &mut self.interrupt_cache.interrupt_repo_cache,
            );
            assert(self@.possible_dependencies =~= was.update(
                i as int,
                self.possible_dependencies@[i as int]@,
            ));
            match outcome {
                Ok(_) => {},
                Err(e) => {
                    assert(self@.possible_dependencies =~= was);
                    return Err(e);
                },
            }
            assert(self@.possible_dependencies =~= before.registered_until(
                style@,
                recipes@,
                i + 2,
            ).possible_dependencies);
        }
        Ok(())
    }
}

impl FileConfigView {
    /// The paths of the executable and the first `n` possible dependencies that count for
    /// whether they are there.
    pub open spec fn wanted(self, style: char, n: int) -> Seq<Seq<char>>
        decreases n,
    {
        if n <= 0 {
            repo::paths_asked_for(style, self.executable, self.work_dir)
        } else {
            self.wanted(style, n - 1) + repo::paths_asked_for(
                style,
                self.possible_dependencies[n - 1],
                self.work_dir,
            )
        }
    }
}

/// The first of the directories, if any are given, that belongs to no repository.
pub open spec fn bad_dir(
    view: FileConfigView,
    context: PathContext,
    dirs: Option<Vec<String>>,
) -> Option<int> {
    match dirs {
        Some(list) => {
            let found = view.owners_of(context, text::texts(list@));
            let n = first_unowned(found, 0);
            if n < found.len() {
                Some(n)
            } else {
                None
            }
        },
        None => None,
    }
}

/// Whether a repository is meant by these directories: by none where they are not given, by an
/// empty list in any case.
pub open spec fn is_meant(
    view: FileConfigView,
    context: PathContext,
    dirs: Option<Vec<String>>,
    name: Seq<char>,
) -> bool {
    match dirs {
        Some(list) => {
            let found = view.owners_of(context, text::texts(list@));
            list@.len() == 0 || owner_names(found, list@.len() as int).contains(name)
        },
        None => false,
    }
}

impl FileConfigView {
    /// The settings with what the command line says of a build as a whole.
    pub open spec fn with_flags(self, args: RunArgs) -> FileConfigView {
        FileConfigView {
            enable_merge: args.enable_merge,
            need_conan_install: args.conan || args.conan_update,
            need_conan_install_update: args.conan_update,
            ..self
        }
    }

    /// The settings with what the command line says.
    pub open spec fn with_args(self, context: PathContext, args: RunArgs) -> FileConfigView {
        FileConfigView {
            repo_caches: Map::new(
                |name: Seq<char>| self.repo_caches.contains_key(name),
                |name: Seq<char>|
                    {
                        let fresh = is_meant(self, context, args.cmake_fresh, name);
                        RepoCacheView {
                            need_cmake: is_meant(self, context, args.cmake, name) || fresh,
                            need_cmake_fresh: fresh,
                            ..self.repo_caches[name]
                        }
                    },
            ),
            ..self.with_flags(args)
        }
    }
}

/// The names of the repositories in some directories; one that belongs to no repository ends it.
pub fn convert_paths_to_repo_names(
    context: &PathContext,
    full_path_map: &Vec<RepoPath>,
    dirs: &Vec<String>,
) -> (r: Result<Vec<String>, Error>)
    ensures
        ({
            let found = owners(*context, path_entries(full_path_map@), text::texts(dirs@));
            let n = first_unowned(found, 0);
            if n < found.len() {
                r matches Err(e) && e.message@ == no_owner_message(context.absolute(dirs@[n]@))
            } else {
                r matches Ok(names) && names@.len() == dirs@.len() && text::texts(names@)
                    == owner_names(found, dirs@.len() as int)
            }
        }),
{
    let ghost found = owners(*context, path_entries(full_path_map@), text::texts(dirs@));
    let mut names: Vec<String> = Vec::new();
    assert(text::texts(names@) =~= owner_names(found, 0));
    for i in 0..dirs.len()
        invariant
            found == owners(*context, path_entries(full_path_map@), text::texts(dirs@)),
            first_unowned(found, 0) == first_unowned(found, i as int),
            text::texts(names@) == owner_names(found, i as int),
    {
        assert(text::texts(dirs@)[i as int] == dirs@[i as int]@);
        match convert_path_dir_to_conan_name(context, full_path_map, dirs[i].as_str()) {
            Ok(name) => {
                text::push_text(&mut names, name);
            },
            Err(e) => {
                return Err(e);
            },
        }
        assert(text::texts(names@) =~= owner_names(found, i + 1));
    }
    assert(text::texts(names@).len() == dirs@.len());
    Ok(names)
}

/// The names of the repositories in the directories, where they are given.
fn names_of_dirs(context: &PathContext, map: &Vec<RepoPath>, dirs: &Option<Vec<String>>) -> (r:
    Result<Option<Vec<String>>, Error>)
    ensures
        match dirs {
            Some(list) => {
                let found = owners(*context, path_entries(map@), text::texts(list@));
                let n = first_unowned(found, 0);
                if n < found.len() {
                    r matches Err(e) && e.message@ == no_owner_message(context.absolute(list@[n]@))
                } else {
                    r matches Ok(Some(names)) && names@.len() == list@.len() && text::texts(names@)
                        == owner_names(found, list@.len() as int)
                }
            },
            None => r matches Ok(None),
        },
{
    match dirs {
        Some(list) => match convert_paths_to_repo_names(context, map, list) {
            Ok(names) => Ok(Some(names)),
            Err(e) => Err(e),
        },
        None => Ok(None),
    }
}

fn means(names: &Option<Vec<String>>, name: &str) -> (r: bool)
    ensures
        r == (match names {
            Some(list) => list@.len() == 0 || text::texts(list@).contains(name@),
            None => false,
        }),
{
    match names {
        Some(list) => list.len() == 0 || text::texts_contain(list, name),
        None => false,
    }
}

impl FileConfig {
    /// Takes over what the command line says: of the build as a whole, and of which repositories
    /// to configure. A directory that belongs to no repository ends it before the latter.
    pub fn update_cli_param(&mut self, context: &PathContext, cli_args: &RunArgs) -> (r: Result<
        (),
        Error,
    >)
        ensures
            ({
                let before = old(self)@;
                match (
                    bad_dir(before, *context, cli_args.cmake),
                    bad_dir(before, *context, cli_args.cmake_fresh),
                ) {
                    (Some(n), _) => {
                        &&& r matches Err(e)
                        &&& e.message@ == no_owner_message(
                            context.absolute(cli_args.cmake->0@[n]@),
                        )
                        &&& final(self)@ == before.with_flags(*cli_args)
                    },
                    (None, Some(n)) => {
                        &&& r matches Err(e)
                        &&& e.message@ == no_owner_message(
                            context.absolute(cli_args.cmake_fresh->0@[n]@),
                        )
                        &&& final(self)@ == before.with_flags(*cli_args)
                    },
                    (None, None) => r is Ok && final(self)@ == before.with_args(
                        *context,
                        *cli_args,
                    ),
                }
            }),
    {
        let ghost before = self@;
        let map = self.build_full_path_map(context);
        self.enable_merge = cli_args.enable_merge;
        self.need_conan_install = cli_args.conan || cli_args.conan_update;
        self.need_conan_install_update = cli_args.conan_update;
        let cmake = match names_of_dirs(context, &map, &cli_args.cmake) {
            Ok(names) => names,
            Err(e) => {
                return Err(e);
            },
        };
        let cmake_fresh = match names_of_dirs(context, &map, &cli_args.cmake_fresh) {
            Ok(names) => names,
            Err(e) => {
                return Err(e);
            },
        };
        let names = self.interrupt_cache.interrupt_repo_cache.key_list();
        let ghost keys = text::texts(names@);
        let ghost goal = before.with_args(*context, *cli_args).repo_caches;
        for i in 0..names.len()
            invariant
                before == old(self)@,
                keys == text::texts(names@),
                keys.no_duplicates(),
                forall|k: Seq<char>| #[trigger]
                    before.repo_caches.contains_key(k) <==> keys.contains(k),
                goal == before.with_args(*context, *cli_args).repo_caches,
                forall|k: Seq<char>| #[trigger]
                    self@.repo_caches.contains_key(k) <==> before.repo_caches.contains_key(k),
                forall|k: Seq<char>| #[trigger]
                    self@.repo_caches.contains_key(k) ==> self@.repo_caches[k] == if keys.take(
                        i as int,
                    ).contains(k) {
                        goal[k]
                    } else {
                        before.repo_caches[k]
                    },
                self@ == (FileConfigView {
                    repo_caches: self@.repo_caches,
                    ..before.with_flags(*cli_args)
                }),
                forall|k: Seq<char>| #[trigger]
                    is_meant(before, *context, cli_args.cmake, k) == (match cmake {
                        Some(list) => list@.len() == 0 || text::texts(list@).contains(k),
                        None => false,
                    }),
                forall|k: Seq<char>| #[trigger]
                    is_meant(before, *context, cli_args.cmake_fresh, k) == (match cmake_fresh {
                        Some(list) => list@.len() == 0 || text::texts(list@).contains(k),
                        None => false,
                    }),
        {
            let ghost last = self@.repo_caches;
            let ghost key = names@[i as int]@;
            assert(keys[i as int] == key);
            assert(keys.contains(key));
            let need_fresh = means(&cmake_fresh, names[i].as_str());
            let need = means(&cmake, names[i].as_str());
            match self.take_repo_cache(names[i].as_str()) {
                Ok(cache) => {
                    let mut cache = cache;
                    cache.need_cmake = need || need_fresh;
                    cache.need_cmake_fresh = need_fresh;
                    assert(cache@ == goal[key]) by {
                        assert(!keys.take(i as int).contains(key));
                    }
                    self.put_repo_cache(names[i].as_str(), cache);
                },
                Err(_) => {},
            }
            assert forall|k: Seq<char>| #[trigger]
                self@.repo_caches.contains_key(k) implies self@.repo_caches[k] == if keys.take(
                i + 1,
            ).contains(k) {
                goal[k]
            } else {
                before.repo_caches[k]
            } by {
                let upto = keys.take(i + 1);
                let seen = keys.take(i as int);
                assert(upto =~= seen.push(key));
                if k == key {
                    assert(upto[i as int] == key);
                } else {
                    assert(last.contains_key(k));
                    if upto.contains(k) {
                        assert(seen[upto.index_of(k)] == k);
                    }
                    if seen.contains(k) {
                        assert(upto[seen.index_of(k)] == k);
                    }
                }
            }
        }
        assert(keys.take(keys.len() as int) =~= keys);
        assert(self@.repo_caches =~= goal);
        Ok(())
    }
}

impl FileConfigView {
    /// The toolchain to configure a repository with, where it does not find one by itself.
    pub open spec fn toolchain_for(self, style: char, name: Seq<char>) -> Option<Seq<char>> {
        if self.settings_of(name)->0.conan_toolchain_managed_by_cmake {
            None
        } else {
            let cache = self.repo_caches[name];
            Some(in_repo(style, cache, cache.conan_toolchain_path))
        }
    }

    /// Why a repository cannot be configured, where it cannot.
    pub open spec fn configure_fault(self, style: char, name: Seq<char>) -> Option<Seq<char>> {
        if !self.repo_caches.contains_key(name) {
            Some(unknown_repo_message(name))
        } else if self.settings_of(name) is None {
            Some(no_settings_message(name))
        } else if self.toolchain_for(style, name) matches Some(path) && path.len() == 0 {
            Some(
                "Conan toolchain path is empty while external toolchain injection is enabled"@,
            )
        } else {
            None
        }
    }

    /// What to configure a repository with.
    pub open spec fn is_configure_info(
        self,
        style: char,
        name: Seq<char>,
        info: CMakeConfigureInfo,
    ) -> bool {
        let cache = self.repo_caches[name];
        let settings = self.settings_of(name)->0;
        &&& info.repo_path@ == cache.repo_dir
        &&& info.build_config@ == self.config
        &&& info.need_cmake == (cache.need_cmake || cache.need_cmake_fresh)
        &&& info.need_cmake_fresh == cache.need_cmake_fresh
        &&& text::opt_text(info.conan_toolchain_path) == self.toolchain_for(style, name)
        &&& info.conan_toolchain_hash == cache.conan_toolchain_hash
        &&& text::texts(info.extra_cmake_options@) == settings.extra_cmake_options
        &&& info.cmake_generator_keyword@ == settings.cmake_generator_keyword
    }

    /// Where the solution of a repository is.
    pub open spec fn solution_of(self, style: char, name: Seq<char>) -> Seq<char> {
        let cache = self.repo_caches[name];
        paths::joined_path(
            style,
            in_repo(style, cache, cache.cmake_binary_dir),
            cache.cmake_pkg_name + ".sln"@,
        )
    }

    /// Why a repository has no solution, where it has none.
    pub open spec fn solution_fault(self, name: Seq<char>) -> Option<Seq<char>> {
        if !self.repo_caches.contains_key(name) {
            Some(unknown_repo_message(name))
        } else if self.repo_caches[name].cmake_pkg_name.len() == 0 {
            Some("CMake package name is empty for repo: "@ + name)
        } else {
            None
        }
    }

    /// Whether a repository was configured for Visual Studio.
    pub open spec fn uses_visual_studio(self, name: Seq<char>) -> bool {
        text::contains_text(self.repo_caches[name].cmake_generator, "Visual Studio"@)
    }

    /// What is known of the repositories once one was configured; a directory that cannot be told
    /// from the root ends it.
    pub open spec fn configured(
        self,
        context: PathContext,
        name: Seq<char>,
        output: CMakeConfigureOutput,
    ) -> FileConfigView {
        let cache = self.repo_caches[name];
        let after = match (
            from_repo(context, cache, output.cmake_binary_dir@),
            from_repo(context, cache, output.install_prefix@),
        ) {
            (None, _) => cache,
            (Some(binary_dir), None) => RepoCacheView { cmake_binary_dir: binary_dir, ..cache },
            (Some(binary_dir), Some(prefix)) => RepoCacheView {
                cmake_binary_dir: binary_dir,
                install_prefix: prefix,
                cmake_pkg_name: output.cmake_pkg_name@,
                cmake_generator: output.cmake_generator@,
                ..cache
            },
        };
        FileConfigView { repo_caches: self.repo_caches.insert(name, after), ..self }
    }
}

impl FileConfig {
    /// What to configure a repository with.
    pub fn get_cmake_executor_info(&self, style: &PathStyle, name: &str) -> (r: Result<
        CMakeConfigureInfo,
        Error,
    >)
        ensures
            match self@.configure_fault(style@, name@) {
                Some(fault) => r matches Err(e) && e.message@ == fault,
                None => r matches Ok(info) && self@.is_configure_info(style@, name@, info),
            },
    {
        let cache = match self.get_interrupt_repo_cache(name) {
            Ok(cache) => cache,
            Err(e) => {
                return Err(e);
            },
        };
        let settings = match self.get_repo_config(name) {
            Ok(settings) => settings,
            Err(e) => {
                return Err(e);
            },
        };
        let conan_toolchain_path = if settings.conan_toolchain_managed_by_cmake {
            None
        } else {
            let path = cache.get_abs_path(style, cache.conan_toolchain_path.as_str());
            if text::is_empty(path.as_str()) {
                return Err(
                    Error::new(
                        "Conan toolchain path is empty while external toolchain injection is enabled",
                    ),
                );
            }
            Some(path)
        };
        Ok(
            CMakeConfigureInfo {
                repo_path: cache.repo_dir.clone(),
                build_config: self.config.clone(),
                need_cmake: cache.need_cmake || cache.need_cmake_fresh,
                need_cmake_fresh: cache.need_cmake_fresh,
                conan_toolchain_path,
                conan_toolchain_hash: cache.conan_toolchain_hash,
                extra_cmake_options: text::clone_texts(&settings.extra_cmake_options),
                cmake_generator_keyword: settings.cmake_generator_keyword.clone(),
            },
        )
    }

    /// What others need to know of a repository to use its package.
    pub fn get_cmake_dependency_info(&self, style: &PathStyle, name: &str) -> (r: Result<
        CMakeDependencyInfo,
        Error,
    >)
        ensures
            match r {
                Ok(info) => {
                    let cache = self@.repo_caches[name@];
                    &&& self@.repo_caches.contains_key(name@)
                    &&& info.cmake_pkg_name@ == cache.cmake_pkg_name
                    &&& info.cmake_pkg_config_dir@ == in_repo(
                        style@,
                        cache,
                        cache.cmake_pkg_config_dir,
                    )
                },
                Err(e) => !self@.repo_caches.contains_key(name@) && e.message@
                    == unknown_repo_message(name@),
            },
    {
        match self.get_interrupt_repo_cache(name) {
            Ok(cache) => Ok(
                CMakeDependencyInfo {
                    cmake_pkg_name: cache.cmake_pkg_name.clone(),
                    cmake_pkg_config_dir: cache.get_abs_path(
                        style,
                        cache.cmake_pkg_config_dir.as_str(),
                    ),
                },
            ),
            Err(e) => Err(e),
        }
    }

    /// Takes over what configuring a repository gave.
    pub fn set_cmake_executor_output(
        &mut self,
        context: &PathContext,
        name: &str,
        output: CMakeConfigureOutput,
    ) -> (r: Result<(), Error>)
        ensures
            ({
                let before = old(self)@;
                let cache = before.repo_caches[name@];
                if !before.repo_caches.contains_key(name@) {
                    &&& r matches Err(e)
                    &&& e.message@ == unknown_repo_message(name@)
                    &&& final(self)@ == before
                } else {
                    &&& final(self)@ == before.configured(*context, name@, output)
                    &&& match (
                        from_repo(*context, cache, output.cmake_binary_dir@),
                        from_repo(*context, cache, output.install_prefix@),
                    ) {
                        (None, _) => r matches Err(e) && e.message@ == not_relative_message(
                            output.cmake_binary_dir@,
                        ),
                        (Some(_), None) => r matches Err(e) && e.message@ == not_relative_message(
                            output.install_prefix@,
                        ),
                        (Some(_), Some(_)) => r is Ok,
                    }
                }
            }),
    {
        let ghost before = self@.repo_caches;
        let mut cache = match self.take_repo_cache(name) {
            Ok(cache) => cache,
            Err(e) => {
                return Err(e);
            },
        };
        let mut outcome = Ok(());
        match cache.get_rel_path(context, output.cmake_binary_dir.as_str()) {
            Err(e) => {
                outcome = Err(e);
            },
            Ok(binary_dir) => {
                cache.cmake_binary_dir = binary_dir;
                match cache.get_rel_path(context, output.install_prefix.as_str()) {
                    Err(e) => {
                        outcome = Err(e);
                    },
                    Ok(prefix) => {
                        cache.install_prefix = prefix;
                        cache.cmake_pkg_name = output.cmake_pkg_name;
                        cache.cmake_generator = output.cmake_generator;
                    },
                }
            },
        }
        self.put_repo_cache(name, cache);
        assert(self@.repo_caches =~= before.insert(name@, cache@));
        outcome
    }

    /// The binary directory of a repository.
    pub fn get_cmake_binary_dir(&self, style: &PathStyle, name: &str) -> (r: Result<String, Error>)
        ensures
            match r {
                Ok(dir) => {
                    let cache = self@.repo_caches[name@];
                    self@.repo_caches.contains_key(name@) && dir@ == in_repo(
                        style@,
                        cache,
                        cache.cmake_binary_dir,
                    )
                },
                Err(e) => !self@.repo_caches.contains_key(name@) && e.message@
                    == unknown_repo_message(name@),
            },
    {
        match self.get_interrupt_repo_cache(name) {
            Ok(cache) => Ok(cache.get_abs_path(style, cache.cmake_binary_dir.as_str())),
            Err(e) => Err(e),
        }
    }

    /// The solution of a repository.
    pub fn get_sln_file_path(&self, style: &PathStyle, name: &str) -> (r: Result<String, Error>)
        ensures
            match self@.solution_fault(name@) {
                Some(fault) => r matches Err(e) && e.message@ == fault,
                None => r matches Ok(path) && path@ == self@.solution_of(style@, name@),
            },
    {
        let cache = match self.get_interrupt_repo_cache(name) {
            Ok(cache) => cache,
            Err(e) => {
                return Err(e);
            },
        };
        if text::is_empty(cache.cmake_pkg_name.as_str()) {
            return Err(Error::about("CMake package name is empty for repo: ", name));
        }
        let mut file = cache.cmake_pkg_name.clone();
        file.append(".sln");
        let dir = cache.get_abs_path(style, cache.cmake_binary_dir.as_str());
        Ok(paths::join(style, dir.as_str(), file.as_str()))
    }

    /// Where a repository is.
    pub fn get_repo_dir(&self, name: &str) -> (r: Result<String, Error>)
        ensures
            match r {
                Ok(dir) => self@.repo_caches.contains_key(name@) && dir@
                    == self@.repo_caches[name@].repo_dir,
                Err(e) => !self@.repo_caches.contains_key(name@) && e.message@
                    == unknown_repo_message(name@),
            },
    {
        match self.get_interrupt_repo_cache(name) {
            Ok(cache) => Ok(cache.repo_dir.clone()),
            Err(e) => Err(e),
        }
    }

    /// Whether a repository was configured for Visual Studio.
    pub fn is_visual_studio_generator(&self, name: &str) -> (r: Result<bool, Error>)
        ensures
            match r {
                Ok(b) => self@.repo_caches.contains_key(name@) && b == self@.uses_visual_studio(
                    name@,
                ),
                Err(e) => !self@.repo_caches.contains_key(name@) && e.message@
                    == unknown_repo_message(name@),
            },
    {
        match self.get_interrupt_repo_cache(name) {
            Ok(cache) => Ok(text::contains(cache.cmake_generator.as_str(), "Visual Studio")),
            Err(e) => Err(e),
        }
    }

    /// Forgets what tasks are finished.
    pub fn clear_progress_data(&mut self)
        ensures
            final(self)@ == (FileConfigView { completed_tasks: Map::empty(), ..old(self)@ }),
    {
        self.interrupt_cache.completed_tasks = TextMap::new();
    }

    /// Forgets for which repositories a task is finished.
    pub fn clear_specific_progress(&mut self, task_id: &str)
        ensures
            final(self)@ == (FileConfigView {
                completed_tasks: old(self)@.completed_tasks.remove(task_id@),
                ..old(self)@
            }),
    {
        let _ = self.interrupt_cache.completed_tasks.remove(task_id);
    }

    /// The names of all repositories, that of the executable at the end.
    pub fn get_all_dependencies(&self) -> (r: Vec<String>)
        ensures
            text::texts(r@) == self@.possible_dependencies.map_values(
                |c: RepoConfigView| c.identification_name,
            ).push(self@.executable.identification_name),
    {
        let ghost names = self@.possible_dependencies.map_values(
            |c: RepoConfigView| c.identification_name,
        );
        let mut out: Vec<String> = Vec::new();
        for i in 0..self.possible_dependencies.len()
            invariant
                names == self@.possible_dependencies.map_values(
                    |c: RepoConfigView| c.identification_name,
                ),
                text::texts(out@) == names.take(i as int),
        {
            text::push_text(&mut out, self.possible_dependencies[i].identification_name.clone());
            assert(names.take(i + 1) =~= names.take(i as int).push(names[i as int]));
        }
        assert(names.take(names.len() as int) =~= names);
        text::push_text(&mut out, self.executable.identification_name.clone());
        out
    }
}

/// Where what is kept from one session to the next is: beside the file with the settings.
pub open spec fn cache_path(style: char, config_path: Seq<char>) -> Seq<char> {
    let stem = match paths::path_file_stem(style, config_path) {
        Some(stem) => stem,
        None => "multi_repo_debug_param"@,
    };
    let dir = match paths::parent_path(style, config_path) {
        Some(dir) => dir,
        None => "."@,
    };
    paths::joined_path(style, dir, "interrupt-cache."@ + stem + ".json"@)
}

/// Where what is kept from one session to the next is.
pub fn derive_interrupt_cache_path(style: &PathStyle, config_path: &str) -> (r: String)
    ensures
        r@ == cache_path(style@, config_path@),
{
    let stem = match paths::file_stem(style, config_path) {
        Some(stem) => stem,
        None => "multi_repo_debug_param".to_owned(),
    };
    let dir = match paths::parent(style, config_path) {
        Some(dir) => dir,
        None => ".".to_owned(),
    };
    let mut file = "interrupt-cache.".to_owned();
    file.append(stem.as_str());
    file.append(".json");
    paths::join(style, dir.as_str(), file.as_str())
}

/// The file with the settings: the one that is named, or the one of this name here.
pub fn config_file_path(cli_args: &RunArgs) -> (r: String)
    ensures
        r@ == (match cli_args.config_file {
            Some(path) => path@,
            None => "multi_repo_debug_param.json"@,
        }),
{
    match &cli_args.config_file {
        Some(path) => path.clone(),
        None => "multi_repo_debug_param.json".to_owned(),
    }
}

/// The directory of the settings.
pub fn work_dir_of(context: &PathContext, config_path: &str) -> (r: String)
    ensures
        r@ == (match paths::parent_path(context.style_view(), config_path@) {
            Some(dir) => context.absolute(dir),
            None => "."@,
        }),
{
    let style = context.style();
    match paths::parent(&style, config_path) {
        Some(dir) => context.absolutize(dir.as_str()),
        None => ".".to_owned(),
    }
}

/// What is to be done where the file with the settings is not there.
pub struct MissingConfig {
    /// Whether a new file is to be made.
    pub create: bool,
    /// What the session ends with, either way.
    pub message: String,
}

/// What a session without a file with the settings ends with.
pub open spec fn missing_config_message(path: Seq<char>, named: bool) -> Seq<char> {
    if named {
        "Config file not found: "@ + path
    } else {
        "Created default config at "@ + path
            + ". Please edit the file and run: multi_repo_debug_tool -c "@ + path
    }
}

/// What is to be done where the file with the settings is not there: one that the user named must
/// be, and otherwise a new one is made to be filled in.
pub fn load_or_create_file_config(cli_args: &RunArgs) -> (r: MissingConfig)
    ensures
        r.create == (cli_args.config_file is None),
        r.message@ == missing_config_message(
            match cli_args.config_file {
                Some(path) => path@,
                None => "multi_repo_debug_param.json"@,
            },
            cli_args.config_file is Some,
        ),
{
    let path = config_file_path(cli_args);
    if cli_args.config_file.is_some() {
        let mut message = "Config file not found: ".to_owned();
        message.append(path.as_str());
        return MissingConfig { create: false, message };
    }
    let mut message = "Created default config at ".to_owned();
    message.append(path.as_str());
    message.append(". Please edit the file and run: multi_repo_debug_tool -c ");
    message.append(path.as_str());
    MissingConfig { create: true, message }
}

/// Puts together the settings of a file, what was kept beside it, and where it is.
pub fn build_runtime_context(
    context: &PathContext,
    cli_args: &RunArgs,
    file_config: FileConfig,
    interrupt_cache: InterruptCache,
) -> (r: Result<FileConfig, Error>)
    ensures
        ({
            let path = match cli_args.config_file {
                Some(path) => path@,
                None => "multi_repo_debug_param.json"@,
            };
            let bad_type = !is_build_type(file_config@.config) && file_config@.config.len() > 0;
            match r {
                Ok(config) => !bad_type && file_config@.cmake_build_parallel
                    != CMakeBuildParallel::Jobs(0) && config@ == (FileConfigView {
                    work_dir: match paths::parent_path(context.style_view(), path) {
                        Some(dir) => context.absolute(dir),
                        None => "."@,
                    },
                    self_file_path: path,
                    repo_caches: interrupt_cache.interrupt_repo_cache@,
                    completed_tasks: interrupt_cache.completed_tasks@,
                    sync_branch_history: text::texts(interrupt_cache.sync_branch_history@),
                    ..file_config@
                }),
                Err(e) => if bad_type {
                    e.message@ == bad_build_type_message(file_config@.config)
                } else {
                    file_config@.cmake_build_parallel == CMakeBuildParallel::Jobs(0) && e.message@
                        == "cmake_build_parallel must be a positive integer when set to a number"@
                },
            }
        }),
{
    match file_config.validate() {
        Ok(_) => {},
        Err(e) => {
            return Err(e);
        },
    }
    let path = config_file_path(cli_args);
    let mut config = file_config;
    config.interrupt_cache = interrupt_cache;
    config.work_dir = work_dir_of(context, path.as_str());
    config.self_file_path = path;
    Ok(config)
}

proof fn lemma_with_name(names: Seq<Seq<char>>, name: Seq<char>)
    ensures
        with_name(names, name).contains(name),
        forall|n: Seq<char>| #[trigger]
            with_name(names, name).contains(n) <==> names.contains(n) || n == name,
        names.no_duplicates() ==> with_name(names, name).no_duplicates(),
        names.is_prefix_of(with_name(names, name)),
{
    let after = with_name(names, name);
    if !names.contains(name) {
        assert(after[names.len() as int] == name);
        assert forall|n: Seq<char>| #[trigger]
            after.contains(n) <==> names.contains(n) || n == name by {
            if names.contains(n) {
                assert(after[names.index_of(n)] == n);
            }
            if after.contains(n) && n != name {
                assert(names[after.index_of(n)] == n);
            }
        }
    }
}

/// Repositories that are put under debug are under debug, with those that were before and no
/// others; none comes to be there twice, and those that were before keep their places.
pub proof fn law_added_repositories_are_under_debug(
    names: Seq<Seq<char>>,
    more: Seq<Seq<char>>,
)
    ensures
        forall|n: Seq<char>| #[trigger]
            with_names(names, more).contains(n) <==> names.contains(n) || more.contains(n),
        names.no_duplicates() ==> with_names(names, more).no_duplicates(),
        names.is_prefix_of(with_names(names, more)),
    decreases more.len(),
{
    if more.len() > 0 {
        let before = with_names(names, more.drop_last());
        law_added_repositories_are_under_debug(names, more.drop_last());
        lemma_with_name(before, more.last());
        assert forall|n: Seq<char>| #[trigger]
            with_names(names, more).contains(n) <==> names.contains(n) || more.contains(n) by {
            if more.contains(n) && n != more.last() {
                assert(more.drop_last()[more.index_of(n)] == n);
            }
            if more.drop_last().contains(n) {
                assert(more[more.drop_last().index_of(n)] == n);
            }
            assert(more[more.len() - 1] == more.last());
        }
        assert(names =~= with_names(names, more).take(names.len() as int)) by {
            assert(names =~= before.take(names.len() as int));
        }
    }
}

proof fn lemma_without_name(names: Seq<Seq<char>>, name: Seq<char>)
    ensures
        forall|n: Seq<char>| #[trigger]
            without_name(names, name).contains(n) <==> names.contains(n) && n != name,
        names.no_duplicates() ==> without_name(names, name).no_duplicates(),
        !names.contains(name) ==> without_name(names, name) == names,
    decreases names.len(),
{
    if names.len() > 0 {
        let front = names.drop_last();
        let rest = without_name(front, name);
        let after = without_name(names, name);
        lemma_without_name(front, name);
        assert forall|n: Seq<char>| #[trigger]
            after.contains(n) <==> names.contains(n) && n != name by {
            if names.contains(n) && n != names.last() {
                assert(front[names.index_of(n)] == n);
            }
            if front.contains(n) {
                assert(names[front.index_of(n)] == n);
            }
            assert(names[names.len() - 1] == names.last());
            if names.last() != name {
                assert(after[rest.len() as int] == names.last());
                if rest.contains(n) {
                    assert(after[rest.index_of(n)] == n);
                }
                if after.contains(n) && n != names.last() {
                    assert(rest[after.index_of(n)] == n);
                }
            }
        }
        if names.no_duplicates() {
            assert(front.no_duplicates());
            assert(!front.contains(names.last())) by {
                if front.contains(names.last()) {
                    assert(names[front.index_of(names.last())] == names[names.len() - 1]);
                }
            }
            assert(!rest.contains(names.last()));
            assert forall|i: int, j: int| 0 <= i < after.len() && 0 <= j < after.len() && i != j implies after[i]
                != after[j] by {
                if i < rest.len() && j < rest.len() {
                    assert(rest[i] != rest[j]);
                } else if i < rest.len() {
                    assert(rest.contains(rest[i]));
                } else {
                    assert(rest.contains(rest[j]));
                }
            }
        }
        if !names.contains(name) {
            assert(!front.contains(name)) by {
                if front.contains(name) {
                    assert(names[front.index_of(name)] == name);
                }
            }
            assert(names[names.len() - 1] != name);
            assert(after =~= names);
        }
    }
}

/// Repositories that are taken from under debug are not there any more, and all others are.
pub proof fn law_removed_repositories_are_not_under_debug(
    names: Seq<Seq<char>>,
    less: Seq<Seq<char>>,
)
    ensures
        forall|n: Seq<char>| #[trigger]
            without_names(names, less).contains(n) <==> names.contains(n) && !less.contains(n),
        names.no_duplicates() ==> without_names(names, less).no_duplicates(),
    decreases less.len(),
{
    if less.len() > 0 {
        let before = without_names(names, less.drop_last());
        law_removed_repositories_are_not_under_debug(names, less.drop_last());
        lemma_without_name(before, less.last());
        assert forall|n: Seq<char>| #[trigger]
            without_names(names, less).contains(n) <==> names.contains(n) && !less.contains(n) by {
            if less.contains(n) && n != less.last() {
                assert(less.drop_last()[less.index_of(n)] == n);
            }
            if less.drop_last().contains(n) {
                assert(less[less.drop_last().index_of(n)] == n);
            }
            assert(less[less.len() - 1] == less.last());
        }
    }
}

/// Taking repositories from under debug undoes putting them there.
pub proof fn law_removing_undoes_adding(names: Seq<Seq<char>>, more: Seq<Seq<char>>)
    requires
        forall|i: int| 0 <= i < more.len() ==> !names.contains(#[trigger] more[i]),
    ensures
        without_names(with_names(names, more), more) == names,
{
    lemma_added_names(names, more);
    let all = with_names(names, more);
    let tail = all.skip(names.len() as int);
    assert(all =~= names + tail);
    lemma_without_names_behind(names, tail, more);
    law_removed_repositories_are_not_under_debug(tail, more);
    let left = without_names(tail, more);
    if left.len() > 0 {
        assert(left.contains(left[0]));
        let k = tail.index_of(left[0]);
        assert(tail[k] == all[names.len() + k]);
        assert(more.contains(all[names.len() + k]));
    }
    assert(names + left =~= names);
}

proof fn lemma_added_names(names: Seq<Seq<char>>, more: Seq<Seq<char>>)
    ensures
        names.len() <= with_names(names, more).len(),
        with_names(names, more).take(names.len() as int) == names,
        forall|k: int|
            names.len() <= k < with_names(names, more).len() ==> more.contains(
                #[trigger] with_names(names, more)[k],
            ),
    decreases more.len(),
{
    if more.len() == 0 {
        assert(names.take(names.len() as int) =~= names);
    } else {
        let front = more.drop_last();
        let before = with_names(names, front);
        let after = with_names(names, more);
        lemma_added_names(names, front);
        assert(after.take(names.len() as int) =~= before.take(names.len() as int));
        assert(more[more.len() - 1] == more.last());
        assert forall|k: int| names.len() <= k < after.len() implies more.contains(
            #[trigger] after[k],
        ) by {
            if k < before.len() {
                assert(after[k] == before[k]);
                let m = front.index_of(before[k]);
                assert(more[m] == front[m]);
            }
        }
    }
}

proof fn lemma_without_name_behind(names: Seq<Seq<char>>, tail: Seq<Seq<char>>, name: Seq<char>)
    requires
        !names.contains(name),
    ensures
        without_name(names + tail, name) == names + without_name(tail, name),
    decreases tail.len(),
{
    if tail.len() == 0 {
        assert(names + tail =~= names);
        assert(names + without_name(tail, name) =~= names);
        lemma_without_name(names, name);
    } else {
        lemma_without_name_behind(names, tail.drop_last(), name);
        assert((names + tail).drop_last() =~= names + tail.drop_last());
        assert(without_name(names + tail, name) =~= names + without_name(tail, name));
    }
}

proof fn lemma_without_names_behind(
    names: Seq<Seq<char>>,
    tail: Seq<Seq<char>>,
    less: Seq<Seq<char>>,
)
    requires
        forall|i: int| 0 <= i < less.len() ==> !names.contains(#[trigger] less[i]),
    ensures
        without_names(names + tail, less) == names + without_names(tail, less),
    decreases less.len(),
{
    if less.len() > 0 {
        let front = less.drop_last();
        assert forall|i: int| 0 <= i < front.len() implies !names.contains(
            #[trigger] front[i],
        ) by {
            assert(front[i] == less[i]);
        }
        lemma_without_names_behind(names, tail, front);
        assert(!names.contains(less[less.len() - 1]));
        lemma_without_name_behind(names, without_names(tail, front), less.last());
    }
}

/// Once it is registered, a repository is known; and where it is, unless another one of the same
/// name is registered after it.
pub proof fn law_registered_repositories_are_known(
    view: FileConfigView,
    style: char,
    recipes: Seq<FileText>,
    i: int,
    n: int,
)
    requires
        0 <= i < n,
        forall|j: int|
            i < j < n ==> #[trigger] view.name_at(recipes, j)->0 != view.name_at(recipes, i)->0,
    ensures
        ({
            let known = view.registered_until(style, recipes, n).repo_caches;
            let name = view.name_at(recipes, i)->0;
            &&& known.contains_key(name)
            &&& known[name].repo_dir == paths::joined_path(
                style,
                view.work_dir,
                view.settings_at(i).path,
            )
        }),
    decreases n - i,
{
    if i < n - 1 {
        law_registered_repositories_are_known(view, style, recipes, i, n - 1);
        assert(view.name_at(recipes, n - 1)->0 != view.name_at(recipes, i)->0);
    }
}

/// Registering repositories forgets none.
pub proof fn law_registering_forgets_nothing(
    view: FileConfigView,
    style: char,
    recipes: Seq<FileText>,
    n: int,
    name: Seq<char>,
)
    requires
        view.repo_caches.contains_key(name),
    ensures
        ({
            let before = view.repo_caches[name];
            let known = view.registered_until(style, recipes, n).repo_caches;
            &&& known.contains_key(name)
            &&& known[name] == (RepoCacheView { repo_dir: known[name].repo_dir, ..before })
        }),
    decreases n,
{
    if n > 0 {
        law_registering_forgets_nothing(view, style, recipes, n - 1, name);
    }
}

/// A repository that is to be configured afresh is to be configured.
pub proof fn law_fresh_repositories_are_configured(
    view: FileConfigView,
    context: PathContext,
    args: RunArgs,
    name: Seq<char>,
)
    requires
        view.repo_caches.contains_key(name),
        view.with_args(context, args).repo_caches[name].need_cmake_fresh,
    ensures
        view.with_args(context, args).repo_caches[name].need_cmake,
{
}

/// The settings that a new file gets are valid.
pub proof fn law_default_settings_are_valid()
    ensures
        is_build_type(default_settings().config),
        default_settings().cmake_build_parallel != CMakeBuildParallel::Jobs(0),
{
}

/// A repository that sees to its toolchain itself gets none in the preset that is made for it.
pub proof fn law_managed_toolchain_is_left_alone(
    view: FileConfigView,
    style: char,
    name: Seq<char>,
    context: PathContext,
    vars: Option<cmake_presets::VariablesView>,
    generator: Seq<char>,
    dependencies: Seq<cmake_configure::DependencyView>,
)
    requires
        view.settings_of(name) matches Some(settings)
            && settings.conan_toolchain_managed_by_cmake,
    ensures
        !cmake_configure::dev_variables(
            context,
            vars,
            view.config,
            generator,
            view.toolchain_for(style, name),
            dependencies,
        ).contains_key("CMAKE_TOOLCHAIN_FILE"@),
{
    cmake_configure::law_dev_preset_variables(
        context,
        vars,
        view.config,
        generator,
        view.toolchain_for(style, name),
        dependencies,
    );
}

} // verus!
