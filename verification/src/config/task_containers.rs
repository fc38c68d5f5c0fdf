//! What tasks get from the settings, and what they leave there.

use super::{FileConfig, FileConfigView, RepoCacheView};
use crate::cmake_build_install::{BuildInstallInput, BuildInstallOutput};
use crate::cmake_configure::{
    self, CMakeConfigureInput, CMakeDependencyInfo, DependencyView,
};
use crate::compile_commands::CompileCommandsInput;
use crate::conan_executor::{ConanInstallInput, ConanInstallOutput};
use crate::conanfile;
use crate::error::Error;
use crate::maps::TextSet;
use crate::paths::{PathContext, PathStyle};
use crate::repo::{GitMergeInput, GitMergeOutput};
use crate::text;
use vstd::prelude::*;

verus! {

/// How many branches are remembered.
pub const HISTORY_LIMIT: usize = 10;

impl FileConfigView {
    /// Whether a task is finished for a repository.
    pub open spec fn is_finished(self, repo_name: Seq<char>, task_id: Seq<char>) -> bool {
        self.completed_tasks.contains_key(task_id) && self.completed_tasks[task_id].contains(
            repo_name,
        )
    }

    /// The settings once a task is finished for a repository.
    pub open spec fn with_finished(self, repo_name: Seq<char>, task_id: Seq<char>) -> FileConfigView {
        let before = if self.completed_tasks.contains_key(task_id) {
            self.completed_tasks[task_id]
        } else {
            Set::empty()
        };
        FileConfigView {
            completed_tasks: self.completed_tasks.insert(task_id, before.insert(repo_name)),
            ..self
        }
    }

    /// The fingerprint of a task on a repository, as JSON text; `null` where there is none.
    pub open spec fn fingerprint_of(self, repo_name: Seq<char>, task_id: Seq<char>) -> Seq<char> {
        if self.repo_caches.contains_key(repo_name)
            && self.repo_caches[repo_name].task_fingerprints.contains_key(task_id) {
            self.repo_caches[repo_name].task_fingerprints[task_id]
        } else {
            "null"@
        }
    }

    /// The settings with something else known of a repository.
    pub open spec fn with_cache(self, name: Seq<char>, cache: RepoCacheView) -> FileConfigView {
        FileConfigView { repo_caches: self.repo_caches.insert(name, cache), ..self }
    }
}

/// What bringing a repository up to date starts from.
pub open spec fn gets_branches(
    config: FileConfigView,
    repo_name: Seq<char>,
    r: Result<GitMergeInput, Error>,
) -> bool {
    match r {
        Ok(input) => {
            let cache = config.repo_caches[repo_name];
            &&& config.repo_caches.contains_key(repo_name)
            &&& input.repo_path@ == cache.repo_dir
            &&& input.last_local_branch@ == cache.last_local_branch
            &&& input.last_sync_branch@ == cache.last_sync_branch
            &&& text::texts(input.sync_branch_history@) == config.sync_branch_history
        },
        Err(e) => !config.repo_caches.contains_key(repo_name) && e.message@
            == super::unknown_repo_message(repo_name),
    }
}

/// What becomes of the settings once a repository was brought up to date: the branches are those
/// last used for it, and the one it was brought up to date with is remembered before all others.
/// Nothing else changes, nor does anything where the repository is unknown.
pub open spec fn keeps_branches(
    before: FileConfigView,
    repo_name: Seq<char>,
    output: GitMergeOutput,
    after: FileConfigView,
    r: Result<(), Error>,
) -> bool {
    if before.repo_caches.contains_key(repo_name) {
        &&& r is Ok
        &&& after == (FileConfigView {
            sync_branch_history: remembered(
                before.sync_branch_history,
                output.current_sync_branch@,
            ),
            ..before.with_cache(
                repo_name,
                RepoCacheView {
                    last_local_branch: output.current_local_branch@,
                    last_sync_branch: output.current_sync_branch@,
                    ..before.repo_caches[repo_name]
                },
            )
        })
    } else {
        &&& r matches Err(e)
        &&& e.message@ == super::unknown_repo_message(repo_name)
        &&& after == before
    }
}

/// The failure to find a repository to keep a fingerprint for.
pub open spec fn no_cache_message(name: Seq<char>) -> Seq<char> {
    "Repo cache not found for: "@ + name
}

/// The list without the first occurrence of a text.
pub open spec fn without_first(list: Seq<Seq<char>>, item: Seq<char>) -> Seq<Seq<char>> {
    match conanfile::first_named(list, item) {
        Some(i) => list.remove(i),
        None => list,
    }
}

/// The branches that are remembered once one was used: that one, and then the others from the
/// latest on, as many as there is room for.
pub open spec fn remembered(history: Seq<Seq<char>>, branch: Seq<char>) -> Seq<Seq<char>> {
    let all = seq![branch] + without_first(history, branch);
    if all.len() > HISTORY_LIMIT {
        all.take(HISTORY_LIMIT as int)
    } else {
        all
    }
}

pub proof fn lemma_without_first(history: Seq<Seq<char>>, branch: Seq<char>)
    requires
        history.no_duplicates(),
    ensures
        without_first(history, branch) == history.filter(|b: Seq<char>| b != branch),
    decreases history.len(),
{
    let keep = |b: Seq<char>| b != branch;
    reveal(Seq::filter);
    conanfile::lemma_first_named(history, branch);
    if history.len() > 0 {
        let front = history.drop_last();
        conanfile::lemma_first_named(front, branch);
        assert forall|i: int, j: int|
            0 <= i < front.len() && 0 <= j < front.len() && i != j implies front[i] != front[j] by {
            assert(front[i] == history[i] && front[j] == history[j]);
        }
        lemma_without_first(front, branch);
        let rest = without_first(front, branch);
        assert(without_first(history, branch) =~= if keep(history.last()) {
            rest.push(history.last())
        } else {
            rest
        });
    }
}

fn position_of(list: &Vec<String>, item: &str) -> (r: Option<usize>)
    ensures
        match r {
            Some(i) => i < list@.len() && conanfile::first_named(text::texts(list@), item@) == Some(
                i as int,
            ),
            None => conanfile::first_named(text::texts(list@), item@) is None,
        },
{
    let ghost all = text::texts(list@);
    for i in 0..list.len()
        invariant
            all == text::texts(list@),
            conanfile::first_named(all.take(i as int), item@) is None,
    {
        assert(all.take(i + 1).drop_last() =~= all.take(i as int));
        if text::same_text(list[i].as_str(), item) {
            proof {
                super::lemma_first_named_prefix(all, item@, i + 1);
            }
            return Some(i);
        }
    }
    assert(all.take(all.len() as int) =~= all);
    None
}

fn remember(history: &mut Vec<String>, branch: &str)
    ensures
        text::texts(final(history)@) == remembered(text::texts(old(history)@), branch@),
{
    let ghost before = text::texts(history@);
    match position_of(history, branch) {
        Some(i) => {
            let _ = history.remove(i);
            assert(text::texts(history@) =~= before.remove(i as int));
        },
        None => {},
    }
    let ghost rest = text::texts(history@);
    history.insert(0, branch.to_owned());
    assert(text::texts(history@) =~= seq![branch@] + rest);
    let ghost all = text::texts(history@);
    if history.len() > HISTORY_LIMIT {
        history.truncate(HISTORY_LIMIT);
        assert(text::texts(history@) =~= all.take(HISTORY_LIMIT as int));
    }
}

impl FileConfig {
    /// Sets down that a task is finished for a repository.
    pub fn mark_task_finish(&mut self, repo_name: &str, task_id: &str)
        ensures
            final(self)@ == old(self)@.with_finished(repo_name@, task_id@),
    {
        let ghost before = self@.completed_tasks;
        let mut names = match self.interrupt_cache.completed_tasks.remove(task_id) {
            Some(names) => names,
            None => TextSet::new(),
        };
        names.insert(repo_name.to_owned());
        self.interrupt_cache.completed_tasks.insert(task_id.to_owned(), names);
        assert(self@.completed_tasks =~= before.insert(task_id@, names@));
    }

    /// Whether a task is finished for a repository.
    pub fn is_task_finished(&self, repo_name: &str, task_id: &str) -> (r: bool)
        ensures
            r == self@.is_finished(repo_name@, task_id@),
    {
        match self.interrupt_cache.completed_tasks.get(task_id) {
            Some(names) => names.contains(repo_name),
            None => false,
        }
    }

    /// The fingerprint of a task on a repository, as JSON text; `null` where there is none.
    pub fn get_fingerprint_json(&self, repo_name: &str, task_id: &str) -> (r: String)
        ensures
            r@ == self@.fingerprint_of(repo_name@, task_id@),
    {
        match self.interrupt_cache.interrupt_repo_cache.get(repo_name) {
            Some(cache) => match cache.task_fingerprints.get(task_id) {
                Some(fingerprint) => fingerprint.clone(),
                None => "null".to_owned(),
            },
            None => "null".to_owned(),
        }
    }

    /// Keeps the fingerprint of a task on a repository.
    pub fn save_fingerprint_json(
        &mut self,
        repo_name: &str,
        task_id: &str,
        fingerprint: String,
    ) -> (r: Result<(), Error>)
        ensures
            ({
                let before = old(self)@;
                if before.repo_caches.contains_key(repo_name@) {
                    let cache = before.repo_caches[repo_name@];
                    &&& r is Ok
                    &&& final(self)@ == before.with_cache(
                        repo_name@,
                        RepoCacheView {
                            task_fingerprints: cache.task_fingerprints.insert(
                                task_id@,
                                fingerprint@,
                            ),
                            ..cache
                        },
                    )
                } else {
                    &&& r matches Err(e)
                    &&& e.message@ == no_cache_message(repo_name@)
                    &&& final(self)@ == before
                }
            }),
    {
        let ghost before = self@.repo_caches;
        let mut cache = match self.take_repo_cache(repo_name) {
            Ok(cache) => cache,
            Err(_) => {
                return Err(Error::about("Repo cache not found for: ", repo_name));
            },
        };
        cache.task_fingerprints.insert(task_id.to_owned(), fingerprint);
        self.put_repo_cache(repo_name, cache);
        assert(self@.repo_caches =~= before.insert(repo_name@, cache@));
        Ok(())
    }

    /// What bringing a repository up to date starts from.
    pub fn git_merge_input(&self, name: &str) -> (r: Result<GitMergeInput, Error>)
        ensures
            gets_branches(self@, name@, r),
    {
        match self.get_interrupt_repo_cache(name) {
            Ok(cache) => Ok(
                GitMergeInput {
                    repo_path: cache.repo_dir.clone(),
                    last_local_branch: cache.last_local_branch.clone(),
                    last_sync_branch: cache.last_sync_branch.clone(),
                    sync_branch_history: text::clone_texts(
                        &self.interrupt_cache.sync_branch_history,
                    ),
                },
            ),
            Err(e) => Err(e),
        }
    }

    /// Takes over what bringing a repository up to date gave: the branches, which are remembered
    /// for it and for all.
    pub fn save_git_merge_output(&mut self, repo_name: &str, output: GitMergeOutput) -> (r: Result<
        (),
        Error,
    >)
        ensures
            keeps_branches(old(self)@, repo_name@, output, final(self)@, r),
    {
        let ghost before = self@.repo_caches;
        let mut cache = match self.take_repo_cache(repo_name) {
            Ok(cache) => cache,
            Err(e) => {
                return Err(e);
            },
        };
        cache.last_local_branch = output.current_local_branch;
        cache.last_sync_branch = output.current_sync_branch.clone();
        self.put_repo_cache(repo_name, cache);
        assert(self@.repo_caches =~= before.insert(repo_name@, cache@));
        remember(
            &mut self.interrupt_cache.sync_branch_history,
            output.current_sync_branch.as_str(),
        );
        Ok(())
    }

    /// What installing packages for a repository starts from.
    pub fn conan_install_input(&self, name: &str) -> (r: Result<ConanInstallInput, Error>)
        ensures
            ({
                let settings = self@.settings_of(name@);
                if !self@.repo_caches.contains_key(name@) {
                    r matches Err(e) && e.message@ == super::unknown_repo_message(name@)
                } else if settings is None {
                    r matches Err(e) && e.message@ == super::no_settings_message(name@)
                } else {
                    &&& r matches Ok(input)
                    &&& input.repo_dir@ == self@.repo_caches[name@].repo_dir
                    &&& text::texts(input.extra_conan_options@) == self@.common_conan_options
                        + settings->0.extra_conan_options
                    &&& input.conan_output_folder@ == settings->0.conan_output_folder
                    &&& input.need_update == self@.need_conan_install_update
                    &&& input.need_install == (self@.need_conan_install
                        || self@.need_conan_install_update)
                }
            }),
    {
        let cache = match self.get_interrupt_repo_cache(name) {
            Ok(cache) => cache,
            Err(e) => {
                return Err(e);
            },
        };
        let settings = match self.get_repo_config(name) {
            Ok(settings) => settings,
            Err(e) => {
                return Err(e);
            },
        };
        let mut options = text::clone_texts(&self.common_conan_options);
        text::append_texts(&mut options, &settings.extra_conan_options);
        Ok(
            ConanInstallInput {
                repo_dir: cache.repo_dir.clone(),
                extra_conan_options: options,
                conan_output_folder: settings.conan_output_folder.clone(),
                need_install: self.need_conan_install || self.need_conan_install_update,
                need_update: self.need_conan_install_update,
            },
        )
    }

    /// Takes over what installing packages for a repository gave, as far as there is anything.
    pub fn save_conan_install_output(
        &mut self,
        context: &PathContext,
        repo_name: &str,
        output: ConanInstallOutput,
    ) -> (r: Result<(), Error>)
        ensures
            ({
                let before = old(self)@;
                let cache = before.repo_caches[repo_name@];
                let path = match output.conan_toolchain_path {
                    Some(path) => super::from_repo(*context, cache, path@),
                    None => Some(cache.conan_toolchain_path),
                };
                if !before.repo_caches.contains_key(repo_name@) {
                    &&& r matches Err(e)
                    &&& e.message@ == super::unknown_repo_message(repo_name@)
                    &&& final(self)@ == before
                } else if path is None {
                    &&& r matches Err(e)
                    &&& e.message@ == super::not_relative_message(output.conan_toolchain_path->0@)
                    &&& final(self)@ == before
                } else {
                    &&& r is Ok
                    &&& final(self)@ == before.with_cache(
                        repo_name@,
                        RepoCacheView {
                            conan_toolchain_path: path->0,
                            conan_toolchain_hash: match output.new_conan_toolchain_hash {
                                Some(hash) => hash,
                                None => cache.conan_toolchain_hash,
                            },
                            ..cache
                        },
                    )
                }
            }),
    {
        let ghost before = self@.repo_caches;
        let mut cache = match self.take_repo_cache(repo_name) {
            Ok(cache) => cache,
            Err(e) => {
                return Err(e);
            },
        };
        if let Some(path) = &output.conan_toolchain_path {
            match cache.get_rel_path(context, path.as_str()) {
                Ok(relative) => {
                    cache.conan_toolchain_path = relative;
                },
                Err(e) => {
                    self.put_repo_cache(repo_name, cache);
                    assert(self@.repo_caches =~= before);
                    return Err(e);
                },
            }
        }
        if let Some(hash) = output.new_conan_toolchain_hash {
            cache.conan_toolchain_hash = hash;
        }
        self.put_repo_cache(repo_name, cache);
        assert(self@.repo_caches =~= before.insert(repo_name@, cache@));
        Ok(())
    }
}

impl FileConfigView {
    /// Those of the repositories that take part.
    pub open spec fn enabled_of(self, names: Seq<Seq<char>>) -> Seq<Seq<char>>
        decreases names.len(),
    {
        if names.len() == 0 {
            Seq::empty()
        } else {
            let rest = self.enabled_of(names.drop_last());
            if self.is_enabled(names.last()) {
                rest.push(names.last())
            } else {
                rest
            }
        }
    }

    /// The first repository from `from` on of which nothing is known, or the number of
    /// repositories.
    pub open spec fn first_unknown(self, names: Seq<Seq<char>>, from: int) -> int
        decreases names.len() - from,
    {
        if from >= names.len() || !self.repo_caches.contains_key(names[from]) {
            from
        } else {
            self.first_unknown(names, from + 1)
        }
    }

    /// What others need to know of a repository to use its package.
    pub open spec fn package_of(self, style: char, name: Seq<char>) -> DependencyView {
        let cache = self.repo_caches[name];
        DependencyView {
            name: cache.cmake_pkg_name,
            config_dir: super::in_repo(style, cache, cache.cmake_pkg_config_dir),
        }
    }

    /// The repositories that take part and that the one at `start` of the graph requires,
    /// directly or not.
    pub open spec fn needed_by(self, start: int) -> Seq<Seq<char>> {
        self.enabled_of(
            conanfile::requirements_of(
                self.package_names,
                self.package_edges,
                start,
                self.package_names.len() as int,
            ),
        )
    }
}

/// The failure to find a package in the graph.
pub open spec fn no_package_message(name: Seq<char>) -> Seq<char> {
    "Package "@ + name + " not found in dependency graph"@
}

impl FileConfig {
    /// Those of the repositories that take part.
    pub fn enabled_names(&self, names: &Vec<String>) -> (r: Vec<String>)
        ensures
            text::texts(r@) == self@.enabled_of(text::texts(names@)),
    {
        let ghost all = text::texts(names@);
        let mut out: Vec<String> = Vec::new();
        for i in 0..names.len()
            invariant
                all == text::texts(names@),
                text::texts(out@) == self@.enabled_of(all.take(i as int)),
        {
            assert(all.take(i + 1).drop_last() =~= all.take(i as int));
            if self.is_dependency_enabled_in_config(names[i].as_str()) {
                text::push_text(&mut out, names[i].clone());
            }
        }
        assert(all.take(all.len() as int) =~= all);
        out
    }

    fn package_infos(&self, style: &PathStyle, names: &Vec<String>) -> (r: Result<
        Vec<CMakeDependencyInfo>,
        Error,
    >)
        ensures
            ({
                let all = text::texts(names@);
                let n = self@.first_unknown(all, 0);
                if n < all.len() {
                    r matches Err(e) && e.message@ == super::unknown_repo_message(all[n])
                } else {
                    r matches Ok(list) && cmake_configure::dependency_views(list@)
                        == all.map_values(|d: Seq<char>| self@.package_of(style@, d))
                }
            }),
    {
        let ghost all = text::texts(names@);
        let ghost f = |d: Seq<char>| self@.package_of(style@, d);
        let mut out: Vec<CMakeDependencyInfo> = Vec::new();
        for i in 0..names.len()
            invariant
                all == text::texts(names@),
                f == (|d: Seq<char>| self@.package_of(style@, d)),
                self@.first_unknown(all, 0) == self@.first_unknown(all, i as int),
                cmake_configure::dependency_views(out@) == all.take(i as int).map_values(f),
        {
            assert(all[i as int] == names@[i as int]@);
            let ghost before = out@;
            match self.get_cmake_dependency_info(style, names[i].as_str()) {
                Ok(info) => {
                    out.push(info);
                },
                Err(e) => {
                    return Err(e);
                },
            }
            assert(cmake_configure::dependency_views(out@)
                =~= cmake_configure::dependency_views(before).push(f(all[i as int])));
            assert(all.take(i + 1).map_values(f) =~= all.take(i as int).map_values(f).push(
                f(all[i as int]),
            ));
        }
        assert(all.take(all.len() as int) =~= all);
        Ok(out)
    }

    /// What configuring a repository starts from. The packages that it requires and that take
    /// part come in the order of the graph.
    pub fn cmake_configure_input(&self, style: &PathStyle, repo_name: &str) -> (r: Result<
        CMakeConfigureInput,
        Error,
    >)
        ensures
            match conanfile::first_named(self@.package_names, repo_name@) {
                None => r matches Err(e) && e.message@ == no_package_message(repo_name@),
                Some(start) => {
                    let needed = self@.needed_by(start);
                    let n = self@.first_unknown(needed, 0);
                    if n < needed.len() {
                        r matches Err(e) && e.message@ == super::unknown_repo_message(needed[n])
                    } else {
                        match self@.configure_fault(style@, repo_name@) {
                            Some(fault) => r matches Err(e) && e.message@ == fault,
                            None => {
                                &&& r matches Ok(input)
                                &&& self@.is_configure_info(
                                    style@,
                                    repo_name@,
                                    input.repo_config,
                                )
                                &&& cmake_configure::dependency_views(input.dependencies@)
                                    == needed.map_values(
                                    |d: Seq<char>| self@.package_of(style@, d),
                                )
                            },
                        }
                    }
                },
            },
    {
        let required = match conanfile::requirements(
            &self.dependency_topological_info.graph,
            repo_name,
        ) {
            Some(required) => required,
            None => {
                let mut message = "Package ".to_owned();
                message.append(repo_name);
                message.append(" not found in dependency graph");
                return Err(Error::new(message.as_str()));
            },
        };
        let needed = self.enabled_names(&required);
        let dependencies = match self.package_infos(style, &needed) {
            Ok(dependencies) => dependencies,
            Err(e) => {
                return Err(e);
            },
        };
        match self.get_cmake_executor_info(style, repo_name) {
            Ok(repo_config) => Ok(CMakeConfigureInput { repo_config, dependencies }),
            Err(e) => Err(e),
        }
    }

    /// What building and installing a repository starts from. The executable is not installed.
    pub fn build_install_input(&self, style: &PathStyle, name: &str) -> (r: Result<
        BuildInstallInput,
        Error,
    >)
        ensures
            match r {
                Ok(input) => {
                    let cache = self@.repo_caches[name@];
                    &&& self@.repo_caches.contains_key(name@)
                    &&& input.repo_path@ == cache.repo_dir
                    &&& input.build_config@ == self@.config
                    &&& input.need_install == (name@ != self@.executable.identification_name)
                    &&& input.cmake_pkg_name@ == cache.cmake_pkg_name
                    &&& input.install_prefix@ == super::in_repo(
                        style@,
                        cache,
                        cache.install_prefix,
                    )
                    &&& input.cmake_binary_dir@ == super::in_repo(
                        style@,
                        cache,
                        cache.cmake_binary_dir,
                    )
                    &&& input.build_parallel == self@.cmake_build_parallel
                    &&& input.cmake_generator@ == cache.cmake_generator
                },
                Err(e) => !self@.repo_caches.contains_key(name@) && e.message@
                    == super::unknown_repo_message(name@),
            },
    {
        let cache = match self.get_interrupt_repo_cache(name) {
            Ok(cache) => cache,
            Err(e) => {
                return Err(e);
            },
        };
        Ok(
            BuildInstallInput {
                repo_path: cache.repo_dir.clone(),
                build_config: self.config.clone(),
                need_install: !text::same_text(
                    name,
                    self.executable.identification_name.as_str(),
                ),
                cmake_pkg_name: cache.cmake_pkg_name.clone(),
                install_prefix: cache.get_abs_path(style, cache.install_prefix.as_str()),
                cmake_binary_dir: cache.get_abs_path(style, cache.cmake_binary_dir.as_str()),
                build_parallel: self.cmake_build_parallel,
                cmake_generator: cache.cmake_generator.clone(),
            },
        )
    }

    /// Takes over what building and installing a repository gave: where the configuration of its
    /// package is, if it has any.
    pub fn save_build_install_output(
        &mut self,
        context: &PathContext,
        name: &str,
        output: BuildInstallOutput,
    ) -> (r: Result<(), Error>)
        ensures
            ({
                let before = old(self)@;
                let cache = before.repo_caches[name@];
                let dir = match output.cmake_pkg_config_dir {
                    Some(dir) => super::from_repo(*context, cache, dir@),
                    None => Some(Seq::empty()),
                };
                if !before.repo_caches.contains_key(name@) {
                    &&& r matches Err(e)
                    &&& e.message@ == super::unknown_repo_message(name@)
                    &&& final(self)@ == before
                } else if dir is None {
                    &&& r matches Err(e)
                    &&& e.message@ == super::not_relative_message(output.cmake_pkg_config_dir->0@)
                    &&& final(self)@ == before
                } else {
                    &&& r is Ok
                    &&& final(self)@ == before.with_cache(
                        name@,
                        RepoCacheView { cmake_pkg_config_dir: dir->0, ..cache },
                    )
                }
            }),
    {
        let ghost before = self@.repo_caches;
        let mut cache = match self.take_repo_cache(name) {
            Ok(cache) => cache,
            Err(e) => {
                return Err(e);
            },
        };
        match &output.cmake_pkg_config_dir {
            Some(dir) => match cache.get_rel_path(context, dir.as_str()) {
                Ok(relative) => {
                    cache.cmake_pkg_config_dir = relative;
                },
                Err(e) => {
                    self.put_repo_cache(name, cache);
                    assert(self@.repo_caches =~= before);
                    return Err(e);
                },
            },
            None => {
                cache.cmake_pkg_config_dir = super::empty_text();
            },
        }
        self.put_repo_cache(name, cache);
        assert(self@.repo_caches =~= before.insert(name@, cache@));
        Ok(())
    }

    /// What making a compilation database for a repository starts from: its solution where it is
    /// configured for Visual Studio, which then must be there.
    pub fn compile_commands_input<'a>(
        &'a self,
        style: &PathStyle,
        name: &str,
        solution_exists: bool,
    ) -> (r: Result<CompileCommandsInput<'a>, Error>)
        ensures
            ({
                let visual_studio = self@.uses_visual_studio(name@);
                if !self@.repo_caches.contains_key(name@) {
                    r matches Err(e) && e.message@ == super::unknown_repo_message(name@)
                } else if visual_studio && self@.solution_fault(name@) is Some {
                    r matches Err(e) && e.message@ == self@.solution_fault(name@)->0
                } else if visual_studio && !solution_exists {
                    r matches Err(e) && e.message@
                        == "Solution file not found for compile commands generation: "@
                        + self@.solution_of(style@, name@)
                } else {
                    &&& r matches Ok(input)
                    &&& *input.compile_commands_config == self.compile_commands_config
                    &&& text::opt_text(input.sln_path) == if visual_studio {
                        Some(self@.solution_of(style@, name@))
                    } else {
                        None
                    }
                }
            }),
    {
        let visual_studio = match self.is_visual_studio_generator(name) {
            Ok(b) => b,
            Err(e) => {
                return Err(e);
            },
        };
        let sln_path = if visual_studio {
            match self.get_sln_file_path(style, name) {
                Ok(path) => {
                    if !solution_exists {
                        return Err(
                            Error::about(
                                "Solution file not found for compile commands generation: ",
                                path.as_str(),
                            ),
                        );
                    }
                    Some(path)
                },
                Err(e) => {
                    return Err(e);
                },
            }
        } else {
            None
        };
        Ok(
            CompileCommandsInput {
                compile_commands_config: &self.compile_commands_config,
                sln_path,
            },
        )
    }
}

/// A task that was set down as finished for a repository is finished for it, and nothing else
/// comes to be finished by that.
pub proof fn law_finished_tasks_are_finished(
    view: FileConfigView,
    repo_name: Seq<char>,
    task_id: Seq<char>,
    other_repo: Seq<char>,
    other_task: Seq<char>,
)
    ensures
        view.with_finished(repo_name, task_id).is_finished(repo_name, task_id),
        other_repo != repo_name || other_task != task_id ==> view.with_finished(
            repo_name,
            task_id,
        ).is_finished(other_repo, other_task) == view.is_finished(other_repo, other_task),
{
}

/// A fingerprint that was kept is the one that is read, and no other fingerprint changes.
pub proof fn law_kept_fingerprint_is_read(
    view: FileConfigView,
    repo_name: Seq<char>,
    task_id: Seq<char>,
    fingerprint: Seq<char>,
    other_repo: Seq<char>,
    other_task: Seq<char>,
)
    requires
        view.repo_caches.contains_key(repo_name),
    ensures
        ({
            let cache = view.repo_caches[repo_name];
            let after = view.with_cache(
                repo_name,
                RepoCacheView {
                    task_fingerprints: cache.task_fingerprints.insert(task_id, fingerprint),
                    ..cache
                },
            );
            &&& after.fingerprint_of(repo_name, task_id) == fingerprint
            &&& other_repo != repo_name || other_task != task_id ==> after.fingerprint_of(
                other_repo,
                other_task,
            ) == view.fingerprint_of(other_repo, other_task)
        }),
{
}

/// The branches that are remembered begin with the one used last and are not too many; where none
/// was there twice, none comes to be, and all that are remembered were so before or are that one.
pub proof fn law_remembered_branches(history: Seq<Seq<char>>, branch: Seq<char>)
    ensures
        remembered(history, branch).len() <= HISTORY_LIMIT,
        remembered(history, branch)[0] == branch,
        history.no_duplicates() ==> remembered(history, branch).no_duplicates(),
        forall|b: Seq<char>| #[trigger]
            remembered(history, branch).contains(b) ==> b == branch || history.contains(b),
{
    conanfile::lemma_first_named(history, branch);
    let rest = without_first(history, branch);
    let all = seq![branch] + rest;
    let kept = remembered(history, branch);
    assert(kept[0] == branch);
    let at = conanfile::first_named(history, branch);
    assert forall|i: int| 0 <= i < rest.len() implies #[trigger] rest[i] == (if at is Some && i
        >= at->0 {
        history[i + 1]
    } else {
        history[i]
    }) by {}
    assert forall|b: Seq<char>| #[trigger] kept.contains(b) implies b == branch || history.contains(
        b,
    ) by {
        let i = kept.index_of(b);
        assert(all[i] == b);
        if i > 0 {
            assert(rest[i - 1] == b);
        }
    }
    if history.no_duplicates() {
        assert forall|i: int, j: int| 0 <= i < kept.len() && 0 <= j < kept.len() && i != j implies kept[i]
            != kept[j] by {
            assert(all[i] == kept[i] && all[j] == kept[j]);
            if i > 0 {
                assert(all[i] == rest[i - 1]);
            }
            if j > 0 {
                assert(all[j] == rest[j - 1]);
            }
        }
    }
}

} // verus!
