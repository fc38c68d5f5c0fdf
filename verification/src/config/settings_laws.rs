//! What holds of the settings: which repositories directories and names lead to, and what changes
//! the settings in which way.

use crate::cli::RunArgs;
use crate::cmake_build_install::{BuildInstallInput, BuildInstallOutput, CMakeBuildParallel};
use crate::cmake_configure::{
    self, CMakeConfigureInfo, CMakeConfigureInput, CMakeConfigureOutput,
};
use crate::compile_commands::CompileCommandsInput;
use crate::conan_executor::{ConanInstallInput, ConanInstallOutput};
use crate::conanfile;
use crate::config::{
    self, task_containers, FileConfig, FileConfigView, InterruptCache, InterruptRepoCache,
    MissingConfig, RepoCacheView, RepoPath,
};
use crate::each_repo_command;
use crate::error::{Error, FileText};
use crate::maps;
use crate::paths::{self, PathContext, PathStyle};
use crate::repo::{self, Download, GitMergeInput, GitMergeOutput};
use crate::repo_config::{RepoConfig, RepoConfigView, StoredRepoConfig};
use crate::repo_laws;
use crate::text;
use crate::text_laws;
use vstd::prelude::*;

verus! {

/// The repository with this name is known to be in the directory.
pub open spec fn is_home(
    view: FileConfigView,
    context: PathContext,
    dir: Seq<char>,
    name: Seq<char>,
) -> bool {
    view.repo_caches.contains_key(name) && paths::same_path(
        context.style_view(),
        context.absolute(view.repo_caches[name].repo_dir),
        context.absolute(dir),
    )
}

/// The directory belongs to the repository with this name: of those known to be there, its name
/// is the last one.
pub open spec fn is_owner(
    view: FileConfigView,
    context: PathContext,
    dir: Seq<char>,
    name: Seq<char>,
) -> bool {
    &&& is_home(view, context, dir, name)
    &&& forall|other: Seq<char>| #[trigger]
        is_home(view, context, dir, other) ==> other == name || text::text_less(other, name)
}

/// The directory belongs to some repository.
pub open spec fn is_owned(view: FileConfigView, context: PathContext, dir: Seq<char>) -> bool {
    exists|name: Seq<char>| is_home(view, context, dir, name)
}

proof fn lemma_owner_of(style: char, entries: Seq<(Seq<char>, Seq<char>)>, full: Seq<char>)
    ensures
        match config::owner_of(style, entries, full) {
            Some(name) => exists|i: int|
                0 <= i < entries.len() && paths::same_path(style, (#[trigger] entries[i]).0, full)
                    && entries[i].1 == name && forall|j: int|
                    i < j < entries.len() ==> !paths::same_path(
                        style,
                        (#[trigger] entries[j]).0,
                        full,
                    ),
            None => forall|j: int|
                0 <= j < entries.len() ==> !paths::same_path(
                    style,
                    (#[trigger] entries[j]).0,
                    full,
                ),
        },
    decreases entries.len(),
{
    if entries.len() > 0 {
        let front = entries.drop_last();
        assert(entries[entries.len() - 1] == entries.last());
        if !paths::same_path(style, entries.last().0, full) {
            lemma_owner_of(style, front, full);
            match config::owner_of(style, front, full) {
                Some(name) => {
                    let i = choose|i: int|
                        0 <= i < front.len() && paths::same_path(
                            style,
                            (#[trigger] front[i]).0,
                            full,
                        ) && front[i].1 == name && forall|j: int|
                            i < j < front.len() ==> !paths::same_path(
                                style,
                                (#[trigger] front[j]).0,
                                full,
                            );
                    assert(entries[i] == front[i]);
                    assert forall|j: int| i < j < entries.len() implies !paths::same_path(
                        style,
                        (#[trigger] entries[j]).0,
                        full,
                    ) by {
                        if j < front.len() {
                            assert(front[j] == entries[j]);
                        }
                    }
                },
                None => {
                    assert forall|j: int| 0 <= j < entries.len() implies !paths::same_path(
                        style,
                        (#[trigger] entries[j]).0,
                        full,
                    ) by {
                        if j < front.len() {
                            assert(front[j] == entries[j]);
                        }
                    }
                },
            }
        }
    }
}

proof fn lemma_owner(view: FileConfigView, context: PathContext, dir: Seq<char>)
    requires
        view.repo_caches.dom().finite(),
    ensures
        ({
            let found = config::owner_of(
                context.style_view(),
                view.full_paths(context),
                context.absolute(dir),
            );
            &&& found is Some <==> is_owned(view, context, dir)
            &&& forall|name: Seq<char>| #[trigger]
                is_owner(view, context, dir, name) <==> found == Some(name)
        }),
{
    let style = context.style_view();
    let full = context.absolute(dir);
    let keys = maps::ascending_keys(view.repo_caches);
    let entries = view.full_paths(context);
    let found = config::owner_of(style, entries, full);
    maps::lemma_keys_of(view.repo_caches);
    lemma_owner_of(style, entries, full);
    assert forall|name: Seq<char>| #[trigger] is_home(view, context, dir, name) implies exists|
        j: int,
    |
        0 <= j < entries.len() && #[trigger] keys[j] == name && entries[j].1 == name
            && paths::same_path(style, entries[j].0, full) by {
        assert(keys.to_set().contains(name));
        let j = keys.index_of(name);
        assert(keys[j] == name && entries[j].1 == name);
    }
    match found {
        Some(name) => {
            let i = choose|i: int|
                0 <= i < entries.len() && paths::same_path(style, (#[trigger] entries[i]).0, full)
                    && entries[i].1 == name && forall|j: int|
                    i < j < entries.len() ==> !paths::same_path(
                        style,
                        (#[trigger] entries[j]).0,
                        full,
                    );
            assert(keys[i] == name);
            assert(keys.to_set().contains(keys[i]));
            assert(is_home(view, context, dir, name));
            assert forall|other: Seq<char>| #[trigger]
                is_home(view, context, dir, other) implies other == name || text::text_less(
                other,
                name,
            ) by {
                let j = choose|j: int|
                    0 <= j < entries.len() && #[trigger] keys[j] == other && entries[j].1 == other
                        && paths::same_path(style, entries[j].0, full);
                assert(keys[j] == other);
                if j < i {
                    assert(text::text_less(keys[j], keys[i]));
                } else if j > i {
                    assert(!paths::same_path(style, entries[j].0, full));
                }
            }
            assert(is_owner(view, context, dir, name));
            assert forall|other: Seq<char>| #[trigger]
                is_owner(view, context, dir, other) implies other == name by {
                text::lemma_text_less_total(other, name);
                assert(is_home(view, context, dir, other));
            }
        },
        None => {
            assert forall|other: Seq<char>| !#[trigger] is_home(view, context, dir, other) by {
                if is_home(view, context, dir, other) {
                    let j = choose|j: int|
                        0 <= j < entries.len() && #[trigger] keys[j] == other && entries[j].1
                            == other && paths::same_path(style, entries[j].0, full);
                    assert(!paths::same_path(style, entries[j].0, full));
                }
            }
        },
    }
}

/// A directory leads to the repository that is known to be there, and exactly where one is.
pub proof fn law_directories_lead_to_repositories(
    settings: &FileConfig,
    context: &PathContext,
    dir: &str,
    map: Vec<RepoPath>,
    r: Result<String, Error>,
)
    requires
        call_ensures(FileConfig::build_full_path_map, (settings, context), map),
        call_ensures(config::convert_path_dir_to_conan_name, (context, &map, dir), r),
    ensures
        r is Ok <==> is_owned(settings@, *context, dir@),
        r matches Ok(name) ==> is_owner(settings@, *context, dir@, name@),
{
    maps::lemma_finite_keys(settings.interrupt_cache.interrupt_repo_cache);
    lemma_owner(settings@, *context, dir@);
}

/// Each of the directories before the `n`th belongs to a repository, and the `n`th does not, if
/// there is one.
pub open spec fn is_first_stray(
    view: FileConfigView,
    context: PathContext,
    dirs: Seq<String>,
    n: int,
) -> bool {
    &&& 0 <= n <= dirs.len()
    &&& forall|i: int| 0 <= i < n ==> is_owned(view, context, (#[trigger] dirs[i])@)
    &&& n < dirs.len() ==> !is_owned(view, context, dirs[n]@)
}

/// One of the first `n` directories belongs to the repository.
pub open spec fn is_reached(
    view: FileConfigView,
    context: PathContext,
    dirs: Seq<String>,
    n: int,
    name: Seq<char>,
) -> bool {
    exists|i: int| 0 <= i < n && is_owner(view, context, (#[trigger] dirs[i])@, name)
}

proof fn lemma_first_stray(found: Seq<Option<Seq<char>>>, from: int)
    requires
        0 <= from <= found.len(),
    ensures
        ({
            let n = config::first_unowned(found, from);
            &&& from <= n <= found.len()
            &&& forall|i: int| from <= i < n ==> (#[trigger] found[i]) is Some
            &&& n < found.len() ==> found[n] is None
        }),
    decreases found.len() - from,
{
    if from < found.len() && found[from] is Some {
        lemma_first_stray(found, from + 1);
    }
}

pub proof fn lemma_reached(view: FileConfigView, context: PathContext, dirs: Seq<String>) -> (n: int)
    requires
        view.repo_caches.dom().finite(),
    ensures
        n == config::first_unowned(view.owners_of(context, text::texts(dirs)), 0),
        is_first_stray(view, context, dirs, n),
        forall|name: Seq<char>| #[trigger]
            is_reached(view, context, dirs, n, name) <==> config::owner_names(
                view.owners_of(context, text::texts(dirs)),
                n,
            ).contains(name),
{
    let found = view.owners_of(context, text::texts(dirs));
    let n = config::first_unowned(found, 0);
    assert(found.len() == dirs.len());
    lemma_first_stray(found, 0);
    assert forall|i: int| 0 <= i < dirs.len() implies (is_owned(view, context, dirs[i]@) <==> (
    #[trigger] found[i]) is Some) && (forall|name: Seq<char>| #[trigger]
        is_owner(view, context, dirs[i]@, name) <==> found[i] == Some(name)) by {
        assert(text::texts(dirs)[i] == dirs[i]@);
        lemma_owner(view, context, dirs[i]@);
    }
    assert forall|i: int| 0 <= i < n implies is_owned(view, context, (#[trigger] dirs[i])@) by {
        assert(found[i] is Some);
    }
    let names = config::owner_names(found, n);
    assert forall|name: Seq<char>| #[trigger]
        is_reached(view, context, dirs, n, name) <==> names.contains(name) by {
        if is_reached(view, context, dirs, n, name) {
            let i = choose|i: int| 0 <= i < n && is_owner(view, context, (#[trigger] dirs[i])@, name);
            assert(found[i] == Some(name));
            assert(names[i] == name);
        }
        if names.contains(name) {
            let i = names.index_of(name);
            assert(found[i] == Some(name));
            assert(is_owner(view, context, dirs[i]@, name));
        }
    }
    n
}

/// Putting repositories under debug puts those of the directories up to the first stray one there,
/// none twice, behind those that were there; nothing else changes.
pub proof fn law_added_directories_are_under_debug(context: &PathContext, dirs: &Vec<String>, n: int)
    ensures
        forall|c: &mut FileConfig, r: Result<(), Error>| #[trigger]
            call_ensures(FileConfig::apply_config_add, (c, context, dirs), r) && is_first_stray(
                c@,
                *context,
                dirs@,
                n,
            ) ==> {
                let before = c@.debug_repo_names;
                let after = final(c)@.debug_repo_names;
                &&& final(c)@ == FileConfigView { debug_repo_names: after, ..c@ }
                &&& r is Ok <==> n == dirs@.len()
                &&& forall|name: Seq<char>| #[trigger]
                    after.contains(name) <==> before.contains(name) || is_reached(
                        c@,
                        *context,
                        dirs@,
                        n,
                        name,
                    )
                &&& before.no_duplicates() ==> after.no_duplicates()
                &&& before.is_prefix_of(after)
            },
{
    assert forall|c: &mut FileConfig, r: Result<(), Error>| #[trigger]
        call_ensures(FileConfig::apply_config_add, (c, context, dirs), r) && is_first_stray(
            c@,
            *context,
            dirs@,
            n,
        ) implies {
        let before = c@.debug_repo_names;
        let after = final(c)@.debug_repo_names;
        &&& final(c)@ == FileConfigView { debug_repo_names: after, ..c@ }
        &&& r is Ok <==> n == dirs@.len()
        &&& forall|name: Seq<char>| #[trigger]
            after.contains(name) <==> before.contains(name) || is_reached(
                c@,
                *context,
                dirs@,
                n,
                name,
            )
        &&& before.no_duplicates() ==> after.no_duplicates()
        &&& before.is_prefix_of(after)
    } by {
        maps::lemma_finite_keys(c.interrupt_cache.interrupt_repo_cache);
        let m = lemma_reached(c@, *context, dirs@);
        lemma_one_stray(c@, *context, dirs@, n, m);
        let found = c@.owners_of(*context, text::texts(dirs@));
        assert(found.len() == dirs@.len());
        config::law_added_repositories_are_under_debug(
            c@.debug_repo_names,
            config::owner_names(found, m),
        );
    }
}

pub proof fn lemma_one_stray(
    view: FileConfigView,
    context: PathContext,
    dirs: Seq<String>,
    n: int,
    m: int,
)
    requires
        is_first_stray(view, context, dirs, n),
        is_first_stray(view, context, dirs, m),
    ensures
        n == m,
{
    if n < m {
        assert(is_owned(view, context, dirs[n]@));
    } else if m < n {
        assert(is_owned(view, context, dirs[m]@));
    }
}

/// Taking repositories from under debug takes those of the directories up to the first stray one
/// from there, and no others; nothing else changes.
pub proof fn law_removed_directories_are_not_under_debug(
    context: &PathContext,
    dirs: &Vec<String>,
    n: int,
)
    ensures
        forall|c: &mut FileConfig, r: Result<(), Error>| #[trigger]
            call_ensures(FileConfig::apply_config_remove, (c, context, dirs), r) && is_first_stray(
                c@,
                *context,
                dirs@,
                n,
            ) ==> {
                let before = c@.debug_repo_names;
                let after = final(c)@.debug_repo_names;
                &&& final(c)@ == FileConfigView { debug_repo_names: after, ..c@ }
                &&& r is Ok <==> n == dirs@.len()
                &&& forall|name: Seq<char>| #[trigger]
                    after.contains(name) <==> before.contains(name) && !is_reached(
                        c@,
                        *context,
                        dirs@,
                        n,
                        name,
                    )
                &&& before.no_duplicates() ==> after.no_duplicates()
            },
{
    assert forall|c: &mut FileConfig, r: Result<(), Error>| #[trigger]
        call_ensures(FileConfig::apply_config_remove, (c, context, dirs), r) && is_first_stray(
            c@,
            *context,
            dirs@,
            n,
        ) implies {
        let before = c@.debug_repo_names;
        let after = final(c)@.debug_repo_names;
        &&& final(c)@ == FileConfigView { debug_repo_names: after, ..c@ }
        &&& r is Ok <==> n == dirs@.len()
        &&& forall|name: Seq<char>| #[trigger]
            after.contains(name) <==> before.contains(name) && !is_reached(
                c@,
                *context,
                dirs@,
                n,
                name,
            )
        &&& before.no_duplicates() ==> after.no_duplicates()
    } by {
        maps::lemma_finite_keys(c.interrupt_cache.interrupt_repo_cache);
        let m = lemma_reached(c@, *context, dirs@);
        lemma_one_stray(c@, *context, dirs@, n, m);
        let found = c@.owners_of(*context, text::texts(dirs@));
        assert(found.len() == dirs@.len());
        config::law_removed_repositories_are_not_under_debug(
            c@.debug_repo_names,
            config::owner_names(found, m),
        );
    }
}

/// Every directory of an option belongs to a repository.
pub open spec fn all_owned(
    view: FileConfigView,
    context: PathContext,
    dirs: Option<Vec<String>>,
) -> bool {
    dirs matches Some(list) ==> is_first_stray(view, context, list@, list@.len() as int)
}

/// The repository is meant by an option: it is there without directories, or with one of its own.
pub open spec fn is_asked_for(
    view: FileConfigView,
    context: PathContext,
    dirs: Option<Vec<String>>,
    name: Seq<char>,
) -> bool {
    match dirs {
        Some(list) => list@.len() == 0 || is_reached(
            view,
            context,
            list@,
            list@.len() as int,
            name,
        ),
        None => false,
    }
}

proof fn lemma_asked_for(
    view: FileConfigView,
    context: PathContext,
    dirs: Option<Vec<String>>,
)
    requires
        view.repo_caches.dom().finite(),
    ensures
        all_owned(view, context, dirs) <==> config::bad_dir(view, context, dirs) is None,
        all_owned(view, context, dirs) ==> forall|name: Seq<char>| #[trigger]
            is_asked_for(view, context, dirs, name) <==> config::is_meant(
                view,
                context,
                dirs,
                name,
            ),
{
    if let Some(list) = dirs {
        let m = lemma_reached(view, context, list@);
        let found = view.owners_of(context, text::texts(list@));
        assert(found.len() == list@.len());
        if all_owned(view, context, dirs) {
            lemma_one_stray(view, context, list@, list@.len() as int, m);
        }
    }
}

/// A command line turns on what it asks for and turns off the rest: merging, installing packages
/// (which updating does too), and configuring the repositories it means (which configuring afresh
/// does too). It is refused exactly where one of its directories is stray.
pub proof fn law_command_line_counts(context: &PathContext, args: &RunArgs)
    ensures
        forall|c: &mut FileConfig, r: Result<(), Error>| #[trigger]
            call_ensures(FileConfig::update_cli_param, (c, context, args), r) ==> {
                let caches = final(c)@.repo_caches;
                &&& r is Ok <==> all_owned(c@, *context, args.cmake) && all_owned(
                    c@,
                    *context,
                    args.cmake_fresh,
                )
                &&& final(c)@ == FileConfigView {
                    enable_merge: args.enable_merge,
                    need_conan_install: args.conan || args.conan_update,
                    need_conan_install_update: args.conan_update,
                    repo_caches: caches,
                    ..c@
                }
                &&& r is Err ==> caches == c@.repo_caches
                &&& r is Ok ==> caches.dom() == c@.repo_caches.dom() && forall|name: Seq<char>|
                    #![trigger caches[name]]
                    caches.contains_key(name) ==> {
                        let fresh = is_asked_for(c@, *context, args.cmake_fresh, name);
                        caches[name] == RepoCacheView {
                            need_cmake: fresh || is_asked_for(c@, *context, args.cmake, name),
                            need_cmake_fresh: fresh,
                            ..c@.repo_caches[name]
                        }
                    }
            },
{
    assert forall|c: &mut FileConfig, r: Result<(), Error>| #[trigger]
        call_ensures(FileConfig::update_cli_param, (c, context, args), r) implies {
        let caches = final(c)@.repo_caches;
        &&& r is Ok <==> all_owned(c@, *context, args.cmake) && all_owned(
            c@,
            *context,
            args.cmake_fresh,
        )
        &&& final(c)@ == FileConfigView {
            enable_merge: args.enable_merge,
            need_conan_install: args.conan || args.conan_update,
            need_conan_install_update: args.conan_update,
            repo_caches: caches,
            ..c@
        }
        &&& r is Err ==> caches == c@.repo_caches
        &&& r is Ok ==> caches.dom() == c@.repo_caches.dom() && forall|name: Seq<char>|
            #![trigger caches[name]]
            caches.contains_key(name) ==> {
                let fresh = is_asked_for(c@, *context, args.cmake_fresh, name);
                caches[name] == RepoCacheView {
                    need_cmake: fresh || is_asked_for(c@, *context, args.cmake, name),
                    need_cmake_fresh: fresh,
                    ..c@.repo_caches[name]
                }
            }
    } by {
        maps::lemma_finite_keys(c.interrupt_cache.interrupt_repo_cache);
        lemma_asked_for(c@, *context, args.cmake);
        lemma_asked_for(c@, *context, args.cmake_fresh);
        let caches = final(c)@.repo_caches;
        if r is Ok {
            assert(caches.dom() =~= c@.repo_caches.dom());
            assert forall|name: Seq<char>|
                #![trigger caches[name]]
                caches.contains_key(name) implies {
                let fresh = is_asked_for(c@, *context, args.cmake_fresh, name);
                caches[name] == RepoCacheView {
                    need_cmake: fresh || is_asked_for(c@, *context, args.cmake, name),
                    need_cmake_fresh: fresh,
                    ..c@.repo_caches[name]
                }
            } by {
                assert(is_asked_for(c@, *context, args.cmake, name) == config::is_meant(
                    c@,
                    *context,
                    args.cmake,
                    name,
                ));
                assert(is_asked_for(c@, *context, args.cmake_fresh, name) == config::is_meant(
                    c@,
                    *context,
                    args.cmake_fresh,
                    name,
                ));
            }
        }
    }
}

/// Of the repositories to choose from, exactly those are chosen that one of the directories to
/// choose leads to, or any where there are none, and none of those to leave out; in their order.
pub proof fn law_repositories_are_chosen_by_place(
    context: &PathContext,
    settings: &FileConfig,
    names: &Vec<String>,
    only: &Vec<String>,
    except: &Vec<String>,
    r: Result<Vec<String>, Error>,
)
    requires
        call_ensures(
            each_repo_command::filter_repo_names_by_path,
            (context, settings, names, only, except),
            r,
        ),
    ensures
        r is Ok <==> is_first_stray(settings@, *context, only@, only@.len() as int)
            && is_first_stray(settings@, *context, except@, except@.len() as int),
        r matches Ok(chosen) ==> text::texts(chosen@) == text::texts(names@).filter(
            |n: Seq<char>|
                (only@.len() == 0 || is_reached(
                    settings@,
                    *context,
                    only@,
                    only@.len() as int,
                    n,
                )) && !is_reached(settings@, *context, except@, except@.len() as int, n),
        ),
{
    maps::lemma_finite_keys(settings.interrupt_cache.interrupt_repo_cache);
    let m = lemma_reached(settings@, *context, only@);
    let k = lemma_reached(settings@, *context, except@);
    let taken = settings@.owners_of(*context, text::texts(only@));
    let left = settings@.owners_of(*context, text::texts(except@));
    assert(taken.len() == only@.len() && left.len() == except@.len());
    assert(text::texts(only@).len() == only@.len() && text::texts(except@).len() == except@.len());
    if is_first_stray(settings@, *context, only@, only@.len() as int) {
        lemma_one_stray(settings@, *context, only@, only@.len() as int, m);
    }
    if is_first_stray(settings@, *context, except@, except@.len() as int) {
        lemma_one_stray(settings@, *context, except@, except@.len() as int, k);
    }
    if let Ok(chosen) = r {
        let named = each_repo_command::names_in(settings@, *context, text::texts(only@));
        let barred = each_repo_command::names_in(settings@, *context, text::texts(except@));
        assert(named.len() == only@.len());
        let keep = |n: Seq<char>|
            (only@.len() == 0 || is_reached(settings@, *context, only@, only@.len() as int, n))
                && !is_reached(settings@, *context, except@, except@.len() as int, n);
        let all = text::texts(names@);
        let wanted = |n: Seq<char>| each_repo_command::is_chosen(n, named, barred);
        lemma_chosen(all, named, barred);
        assert forall|n: Seq<char>| #[trigger] keep(n) == wanted(n) by {
            assert(is_reached(settings@, *context, only@, m, n) == named.contains(n));
            assert(is_reached(settings@, *context, except@, k, n) == barred.contains(n));
        }
        text_laws::lemma_same_filter(all, keep, wanted);
    }
}

proof fn lemma_chosen(names: Seq<Seq<char>>, only: Seq<Seq<char>>, except: Seq<Seq<char>>)
    ensures
        each_repo_command::chosen(names, only, except) == names.filter(
            |n: Seq<char>| each_repo_command::is_chosen(n, only, except),
        ),
    decreases names.len(),
{
    reveal(Seq::filter);
    if names.len() > 0 {
        lemma_chosen(names.drop_last(), only, except);
    }
}

/// The `i`th possible dependency is the first with this name.
pub open spec fn is_first_dependency(view: FileConfigView, name: Seq<char>, i: int) -> bool {
    &&& 0 <= i < view.possible_dependencies.len()
    &&& view.possible_dependencies[i].identification_name == name
    &&& forall|j: int|
        0 <= j < i ==> (#[trigger] view.possible_dependencies[j]).identification_name != name
}

/// The repository takes part: no possible dependency of its name says otherwise.
pub open spec fn takes_part(view: FileConfigView, name: Seq<char>) -> bool {
    forall|i: int| #[trigger]
        is_first_dependency(view, name, i) ==> view.possible_dependencies[i].enable
}

pub proof fn lemma_dependency_named(view: FileConfigView, name: Seq<char>)
    ensures
        match view.dependency_named(name) {
            Some(i) => is_first_dependency(view, name, i) && forall|j: int| #[trigger]
                is_first_dependency(view, name, j) ==> j == i,
            None => forall|j: int|
                0 <= j < view.possible_dependencies.len()
                    ==> (#[trigger] view.possible_dependencies[j]).identification_name != name,
        },
        view.is_enabled(name) == takes_part(view, name),
{
    let names = view.possible_dependencies.map_values(
        |c: RepoConfigView| c.identification_name,
    );
    conanfile::lemma_first_named(names, name);
    assert forall|j: int|
        0 <= j < view.possible_dependencies.len() implies (
    #[trigger] view.possible_dependencies[j]).identification_name == names[j] by {}
    match view.dependency_named(name) {
        Some(i) => {
            assert(names[i] == name);
            assert forall|j: int|
                0 <= j < i implies (
            #[trigger] view.possible_dependencies[j]).identification_name != name by {
                assert(names[j] != name);
            }
            assert(is_first_dependency(view, name, i));
            assert forall|j: int| #[trigger] is_first_dependency(view, name, j) implies j == i by {
                if i < j {
                    assert(view.possible_dependencies[i].identification_name != name);
                } else if j < i {
                    assert(view.possible_dependencies[j].identification_name != name);
                }
            }
        },
        None => {
            assert forall|j: int|
                0 <= j < view.possible_dependencies.len() implies (
            #[trigger] view.possible_dependencies[j]).identification_name != name by {
                assert(names[j] != name);
            }
        },
    }
}

/// A name leads to the settings of the first possible dependency with that name, or of the
/// executable where there is none; only a possible dependency can be told not to take part.
pub proof fn law_names_lead_to_settings(
    settings: &FileConfig,
    name: &str,
    enabled: bool,
    r: Result<&RepoConfig, Error>,
)
    requires
        call_ensures(FileConfig::is_dependency_enabled_in_config, (settings, name), enabled),
        call_ensures(FileConfig::get_repo_config, (settings, name), r),
    ensures
        enabled == takes_part(settings@, name@),
        forall|i: int| #[trigger]
            is_first_dependency(settings@, name@, i) ==> (r matches Ok(c) && c@
                == settings@.possible_dependencies[i]),
        (forall|i: int|
            0 <= i < settings@.possible_dependencies.len() ==> (
            #[trigger] settings@.possible_dependencies[i]).identification_name != name@) ==> {
            &&& r is Ok <==> settings@.executable.identification_name == name@
            &&& r matches Ok(c) ==> c@ == settings@.executable
        },
{
    lemma_dependency_named(settings@, name@);
    if let Some(i) = settings@.dependency_named(name@) {
        assert(settings@.possible_dependencies[i].identification_name == name@);
    }
}

pub proof fn lemma_enabled_of(view: FileConfigView, names: Seq<Seq<char>>)
    ensures
        view.enabled_of(names) == names.filter(|n: Seq<char>| takes_part(view, n)),
    decreases names.len(),
{
    reveal(Seq::filter);
    if names.len() > 0 {
        lemma_enabled_of(view, names.drop_last());
        lemma_dependency_named(view, names.last());
    }
}

/// Of some repositories exactly those that take part are left, in their order.
pub proof fn law_disabled_repositories_are_left_out(
    settings: &FileConfig,
    names: &Vec<String>,
    r: Vec<String>,
)
    requires
        call_ensures(FileConfig::enabled_names, (settings, names), r),
    ensures
        text::texts(r@) == text::texts(names@).filter(|n: Seq<char>| takes_part(settings@, n)),
{
    lemma_enabled_of(settings@, text::texts(names@));
}

/// What is known of a repository says where its files are, and the settings how to configure it.
/// It is told the toolchain unless it sees to that itself, and to configure where that is asked
/// for, afresh or not.
pub proof fn law_configuring_follows_the_settings(
    settings: &FileConfig,
    style: &PathStyle,
    name: &str,
    own: Result<&RepoConfig, Error>,
    r: Result<CMakeConfigureInfo, Error>,
)
    requires
        call_ensures(FileConfig::get_repo_config, (settings, name), own),
        call_ensures(FileConfig::get_cmake_executor_info, (settings, style, name), r),
    ensures
        ({
            let known = settings@.repo_caches.contains_key(name@);
            let cache = settings@.repo_caches[name@];
            let toolchain = paths::joined_path(style@, cache.repo_dir, cache.conan_toolchain_path);
            &&& r is Ok <==> known && own is Ok && (own->Ok_0@.conan_toolchain_managed_by_cmake
                || toolchain.len() > 0)
            &&& r matches Ok(info) ==> {
                &&& info.repo_path@ == cache.repo_dir
                &&& info.build_config@ == settings@.config
                &&& info.need_cmake == (cache.need_cmake || cache.need_cmake_fresh)
                &&& info.need_cmake_fresh == cache.need_cmake_fresh
                &&& info.conan_toolchain_hash == cache.conan_toolchain_hash
                &&& text::texts(info.extra_cmake_options@) == own->Ok_0@.extra_cmake_options
                &&& info.cmake_generator_keyword@ == own->Ok_0@.cmake_generator_keyword
                &&& match info.conan_toolchain_path {
                    Some(path) => !own->Ok_0@.conan_toolchain_managed_by_cmake && path@
                        == toolchain,
                    None => own->Ok_0@.conan_toolchain_managed_by_cmake,
                }
            }
        }),
{
}

/// Packages are installed with the options of all repositories, and then with those of the one
/// they are installed for.
pub proof fn law_installing_follows_the_settings(
    settings: &FileConfig,
    name: &str,
    own: Result<&RepoConfig, Error>,
    r: Result<ConanInstallInput, Error>,
)
    requires
        call_ensures(FileConfig::get_repo_config, (settings, name), own),
        call_ensures(FileConfig::conan_install_input, (settings, name), r),
    ensures
        r is Ok <==> settings@.repo_caches.contains_key(name@) && own is Ok,
        r matches Ok(input) ==> {
            &&& input.repo_dir@ == settings@.repo_caches[name@].repo_dir
            &&& text::texts(input.extra_conan_options@) == settings@.common_conan_options
                + own->Ok_0@.extra_conan_options
            &&& input.conan_output_folder@ == own->Ok_0@.conan_output_folder
            &&& input.need_update == settings@.need_conan_install_update
            &&& input.need_install == (settings@.need_conan_install
                || settings@.need_conan_install_update)
        },
{
}

pub proof fn lemma_first_unknown(view: FileConfigView, names: Seq<Seq<char>>, from: int)
    requires
        0 <= from <= names.len(),
    ensures
        ({
            let n = view.first_unknown(names, from);
            &&& from <= n <= names.len()
            &&& forall|i: int| from <= i < n ==> view.repo_caches.contains_key(#[trigger] names[i])
            &&& n < names.len() ==> !view.repo_caches.contains_key(names[n])
        }),
    decreases names.len() - from,
{
    if from < names.len() && view.repo_caches.contains_key(names[from]) {
        lemma_first_unknown(view, names, from + 1);
    }
}

/// A repository is configured with all the packages that it requires and that take part, in the
/// order of the graph, each with where it was installed. It can be exactly where they are known
/// and it can be configured without them.
pub proof fn law_required_packages_are_configured(
    settings: &FileConfig,
    style: &PathStyle,
    name: &str,
    required: Vec<String>,
    info: Result<CMakeConfigureInfo, Error>,
    r: Result<CMakeConfigureInput, Error>,
)
    requires
        call_ensures(
            conanfile::requirements,
            (&settings.dependency_topological_info.graph, name),
            Some(required),
        ),
        call_ensures(FileConfig::get_cmake_executor_info, (settings, style, name), info),
        call_ensures(FileConfig::cmake_configure_input, (settings, style, name), r),
    ensures
        ({
            let caches = settings@.repo_caches;
            let needed = text::texts(required@).filter(
                |n: Seq<char>| takes_part(settings@, n),
            );
            &&& r is Ok <==> info is Ok && forall|i: int|
                0 <= i < needed.len() ==> caches.contains_key(#[trigger] needed[i])
            &&& r matches Ok(input) ==> {
                &&& input.dependencies@.len() == needed.len()
                &&& forall|i: int|
                    #![trigger input.dependencies@[i]]
                    #![trigger needed[i]]
                    0 <= i < needed.len() ==> input.dependencies@[i].cmake_pkg_name@
                        == caches[needed[i]].cmake_pkg_name
                        && input.dependencies@[i].cmake_pkg_config_dir@ == paths::joined_path(
                        style@,
                        caches[needed[i]].repo_dir,
                        caches[needed[i]].cmake_pkg_config_dir,
                    )
            }
        }),
{
    let view = settings@;
    let all = text::texts(required@);
    let needed = all.filter(|n: Seq<char>| takes_part(view, n));
    lemma_enabled_of(view, all);
    lemma_first_unknown(view, needed, 0);
    if let Ok(input) = r {
        let views = cmake_configure::dependency_views(input.dependencies@);
        assert(views.len() == input.dependencies@.len());
        assert forall|i: int|
            #![trigger input.dependencies@[i]]
            #![trigger needed[i]]
            0 <= i < needed.len() implies input.dependencies@[i].cmake_pkg_name@
            == view.repo_caches[needed[i]].cmake_pkg_name
            && input.dependencies@[i].cmake_pkg_config_dir@ == paths::joined_path(
            style@,
            view.repo_caches[needed[i]].repo_dir,
            view.repo_caches[needed[i]].cmake_pkg_config_dir,
        ) by {
            assert(views[i] == view.package_of(style@, needed[i]));
        }
    }
}

/// A path told from the root of a repository.
pub open spec fn told_from(
    context: PathContext,
    root: Seq<char>,
    path: Seq<char>,
) -> Option<Seq<char>> {
    paths::relative_path(
        context.style_view(),
        path,
        if paths::absolute_path(context.style_view(), path) {
            context.absolute(root)
        } else {
            root
        },
    )
}

/// Where a repository was configured to be built and installed is kept, told from its root, with
/// the name of its package and the generator; of no other repository does anything change.
pub proof fn law_configured_directories_are_kept(
    context: &PathContext,
    name: &str,
    output: CMakeConfigureOutput,
)
    ensures
        forall|c: &mut FileConfig, r: Result<(), Error>| #[trigger]
            call_ensures(FileConfig::set_cmake_executor_output, (c, context, name, output), r) ==> {
                let known = c@.repo_caches.contains_key(name@);
                let cache = c@.repo_caches[name@];
                let built = told_from(*context, cache.repo_dir, output.cmake_binary_dir@);
                let installed = told_from(*context, cache.repo_dir, output.install_prefix@);
                &&& r is Ok <==> known && built is Some && installed is Some
                &&& final(c)@ == FileConfigView { repo_caches: final(c)@.repo_caches, ..c@ }
                &&& final(c)@.repo_caches.remove(name@) == c@.repo_caches.remove(name@)
                &&& final(c)@.repo_caches.contains_key(name@) == known
                &&& r is Ok ==> final(c)@.repo_caches[name@] == RepoCacheView {
                    cmake_binary_dir: built->0,
                    install_prefix: installed->0,
                    cmake_pkg_name: output.cmake_pkg_name@,
                    cmake_generator: output.cmake_generator@,
                    ..cache
                }
            },
{
    assert forall|c: &mut FileConfig, r: Result<(), Error>| #[trigger]
        call_ensures(
            FileConfig::set_cmake_executor_output,
            (c, context, name, output),
            r,
        ) implies final(c)@.repo_caches.remove(name@) == c@.repo_caches.remove(name@) by {
        assert(final(c)@.repo_caches.remove(name@) =~= c@.repo_caches.remove(name@));
    }
}

/// The solution of a repository is in its binary directory, under the name of its package.
pub proof fn law_solution_is_in_the_binary_directory(
    settings: &FileConfig,
    style: &PathStyle,
    name: &str,
    dir: Result<String, Error>,
    sln: Result<String, Error>,
)
    requires
        call_ensures(FileConfig::get_cmake_binary_dir, (settings, style, name), dir),
        call_ensures(FileConfig::get_sln_file_path, (settings, style, name), sln),
    ensures
        ({
            let known = settings@.repo_caches.contains_key(name@);
            let cache = settings@.repo_caches[name@];
            &&& dir is Ok <==> known
            &&& dir matches Ok(d) ==> d@ == paths::joined_path(
                style@,
                cache.repo_dir,
                cache.cmake_binary_dir,
            )
            &&& sln is Ok <==> known && cache.cmake_pkg_name.len() > 0
            &&& sln matches Ok(s) ==> s@ == paths::joined_path(
                style@,
                dir->Ok_0@,
                cache.cmake_pkg_name + ".sln"@,
            )
        }),
{
}

/// There are four build types. One of them is taken over, and another text is refused and changes
/// nothing but that an empty build type becomes the default.
pub proof fn law_build_types(settings: &FileConfig, build_type: &str, checked: Result<(), Error>)
    requires
        call_ensures(FileConfig::validate, (settings,), checked),
    ensures
        checked is Ok <==> (settings@.config.len() == 0 || seq![
            "Debug"@,
            "Release"@,
            "RelWithDebInfo"@,
            "MinSizeRel"@,
        ].contains(settings@.config)) && settings@.cmake_build_parallel != CMakeBuildParallel::Jobs(0),
        forall|c: &mut FileConfig, r: Result<(), Error>| #[trigger]
            call_ensures(FileConfig::set_build_type, (c, build_type), r) ==> {
                &&& r is Ok <==> seq![
                    "Debug"@,
                    "Release"@,
                    "RelWithDebInfo"@,
                    "MinSizeRel"@,
                ].contains(build_type@)
                &&& final(c)@ == FileConfigView { config: final(c)@.config, ..c@ }
                &&& r is Ok ==> final(c)@.config == build_type@
                &&& r is Err ==> final(c)@.config == if c@.config.len() == 0 {
                    "RelWithDebInfo"@
                } else {
                    c@.config
                }
            },
{
    lemma_four("Debug"@, "Release"@, "RelWithDebInfo"@, "MinSizeRel"@, build_type@);
    lemma_four("Debug"@, "Release"@, "RelWithDebInfo"@, "MinSizeRel"@, settings@.config);
}

pub proof fn lemma_four(a: Seq<char>, b: Seq<char>, c: Seq<char>, d: Seq<char>, x: Seq<char>)
    ensures
        seq![a, b, c, d].contains(x) <==> x == a || x == b || x == c || x == d,
{
    let all = seq![a, b, c, d];
    assert(all[0] == a && all[1] == b && all[2] == c && all[3] == d);
}

/// What is left out of the settings of a repository stands for this, and what is there for itself.
pub proof fn law_stored_settings_are_completed(stored: StoredRepoConfig, r: RepoConfig)
    requires
        call_ensures(RepoConfig::from_stored, (stored,), r),
    ensures
        stored.url matches Some(s) ==> r@.url == s@,
        stored.path matches Some(s) ==> r@.path == s@,
        stored.cmake_generator_keyword matches Some(s) ==> r@.cmake_generator_keyword == s@,
        stored.conan_output_folder matches Some(s) ==> r@.conan_output_folder == s@,
        stored.extra_conan_options matches Some(l) ==> r@.extra_conan_options == text::texts(l@),
        stored.extra_cmake_options matches Some(l) ==> r@.extra_cmake_options == text::texts(l@),
        stored.conan_toolchain_managed_by_cmake matches Some(b)
            ==> r@.conan_toolchain_managed_by_cmake == b,
        stored.auto_clone matches Some(b) ==> r@.auto_clone == b,
        stored.enable matches Some(b) ==> r@.enable == b,
        stored.url is None ==> r@.url == ""@,
        stored.path is None ==> r@.path == ""@,
        stored.cmake_generator_keyword is None ==> r@.cmake_generator_keyword == "Visual Studio"@,
        stored.conan_output_folder is None ==> r@.conan_output_folder == "build/conan"@,
        stored.extra_conan_options is None ==> r@.extra_conan_options.len() == 0,
        stored.extra_cmake_options is None ==> r@.extra_cmake_options.len() == 0,
        stored.conan_toolchain_managed_by_cmake is None ==> !r@.conan_toolchain_managed_by_cmake,
        stored.auto_clone is None ==> r@.auto_clone,
        stored.enable is None ==> r@.enable,
        r@.identification_name.len() == 0,
{
}

/// The executable is seen to first, whether or not it is told to take part; only once it is in
/// place are the possible dependencies that take part seen to. Nothing but paths changes.
pub proof fn law_executable_is_seen_to_first(style: &PathStyle, present: &Vec<String>)
    ensures
        forall|c: &mut FileConfig, r: Result<Option<Download>, Error>| #[trigger]
            call_ensures(FileConfig::ensure_repositories, (c, style, present), r) ==> {
                let there = text::texts(present@);
                let own = c@.executable;
                let after = final(c)@;
                &&& after == FileConfigView {
                    executable: RepoConfigView { path: after.executable.path, ..own },
                    possible_dependencies: after.possible_dependencies,
                    ..c@
                }
                &&& if repo_laws::is_in_place(style@, own, c@.work_dir, there) {
                    there.contains(
                        paths::joined_path(style@, c@.work_dir, after.executable.path),
                    ) && repo_laws::are_seen_to(
                        style@,
                        c@.possible_dependencies,
                        after.possible_dependencies,
                        c@.work_dir,
                        there,
                        false,
                        r,
                    )
                } else {
                    &&& after.possible_dependencies == c@.possible_dependencies
                    &&& r is Ok <==> own.auto_clone && repo::name_in_url(own.url) is Some
                    &&& r matches Ok(d) ==> d is Some && d->0.target@ == paths::joined_path(
                        style@,
                        c@.work_dir,
                        after.executable.path,
                    ) && Some(after.executable.path) == repo::name_in_url(own.url)
                }
            },
{
    assert forall|c: &mut FileConfig, r: Result<Option<Download>, Error>| #[trigger]
        call_ensures(
            FileConfig::ensure_repositories,
            (c, style, present),
            r,
        ) && repo_laws::is_in_place(
            style@,
            c@.executable,
            c@.work_dir,
            text::texts(present@),
        ) implies repo_laws::are_seen_to(
        style@,
        c@.possible_dependencies,
        final(c)@.possible_dependencies,
        c@.work_dir,
        text::texts(present@),
        false,
        r,
    ) by {
        let there = text::texts(present@);
        assert(repo::settles(
            c@.possible_dependencies,
            final(c)@.possible_dependencies,
            r,
            style@,
            c@.work_dir,
            there,
            false,
        ));
        repo_laws::lemma_seen_to(
            style@,
            c@.possible_dependencies,
            final(c)@.possible_dependencies,
            c@.work_dir,
            there,
            false,
            r,
        );
    }
}

/// What is kept from one session to the next stands beside the settings, in a file of its own for
/// each file with settings.
pub proof fn law_kept_file_is_beside_the_settings(
    style: &PathStyle,
    config_path: &str,
    r: String,
)
    requires
        call_ensures(config::derive_interrupt_cache_path, (style, config_path), r),
    ensures
        r@ == paths::joined_path(
            style@,
            match paths::parent_path(style@, config_path@) {
                Some(dir) => dir,
                None => "."@,
            },
            "interrupt-cache."@ + (match paths::path_file_stem(style@, config_path@) {
                Some(stem) => stem,
                None => "multi_repo_debug_param"@,
            }) + ".json"@,
        ),
{
}

/// Each repository gets the name it is known by, and none of its other settings changes; the
/// first one without a name ends it.
pub proof fn law_repositories_get_their_names(
    style: &PathStyle,
    recipes: &Vec<FileText>,
    n: int,
)
    ensures
        forall|c: &mut FileConfig, r: Result<(), Error>| #[trigger]
            call_ensures(FileConfig::update_repo_path, (c, style, recipes), r) && recipes@.len()
                == c@.possible_dependencies.len() + 1 && is_first_nameless(c@, recipes@, n) ==> {
                let after = final(c)@;
                &&& r is Ok <==> n == recipes@.len()
                &&& after == FileConfigView {
                    executable: after.executable,
                    possible_dependencies: after.possible_dependencies,
                    repo_caches: after.repo_caches,
                    ..c@
                }
                &&& after.possible_dependencies.len() == c@.possible_dependencies.len()
                &&& forall|i: int|
                    0 <= i < recipes@.len() ==> #[trigger] after.settings_at(i)
                        == RepoConfigView {
                        identification_name: if i < n {
                            repo::identification_of(recipes@[i], c@.settings_at(i).url)->0
                        } else {
                            c@.settings_at(i).identification_name
                        },
                        ..c@.settings_at(i)
                    }
            },
{
    assert forall|c: &mut FileConfig, r: Result<(), Error>| #[trigger]
        call_ensures(FileConfig::update_repo_path, (c, style, recipes), r) && recipes@.len()
            == c@.possible_dependencies.len() + 1 && is_first_nameless(
            c@,
            recipes@,
            n,
        ) implies c@.first_nameless(recipes@, 0) == n by {
        lemma_first_nameless(c@, recipes@, 0);
        let m = c@.first_nameless(recipes@, 0);
        if m < n {
            assert(repo::identification_of(recipes@[m], c@.settings_at(m).url) is Some);
        } else if n < m {
            assert(repo::identification_of(recipes@[n], c@.settings_at(n).url) is Some);
        }
    }
}

/// The repositories before the `n`th have names, and the `n`th has none, if there is one; the
/// executable comes first.
pub open spec fn is_first_nameless(view: FileConfigView, recipes: Seq<FileText>, n: int) -> bool {
    &&& 0 <= n <= recipes.len()
    &&& forall|i: int|
        0 <= i < n ==> #[trigger] repo::identification_of(recipes[i], view.settings_at(i).url)
            is Some
    &&& n < recipes.len() ==> repo::identification_of(recipes[n], view.settings_at(n).url) is None
}

proof fn lemma_first_nameless(view: FileConfigView, recipes: Seq<FileText>, from: int)
    requires
        0 <= from <= recipes.len(),
    ensures
        ({
            let n = view.first_nameless(recipes, from);
            &&& from <= n <= recipes.len()
            &&& forall|i: int|
                from <= i < n ==> #[trigger] repo::identification_of(
                    recipes[i],
                    view.settings_at(i).url,
                ) is Some
            &&& n < recipes.len() ==> repo::identification_of(
                recipes[n],
                view.settings_at(n).url,
            ) is None
        }),
    decreases recipes.len() - from,
{
    if from < recipes.len() && view.name_at(recipes, from) is Some {
        lemma_first_nameless(view, recipes, from + 1);
    }
}

/// The branch that was used comes before the others that are remembered, which keep their order;
/// no more than ten are remembered. The repository remembers the branches that were used for it.
pub proof fn law_used_branches_are_remembered(name: &str, output: GitMergeOutput)
    ensures
        forall|c: &mut FileConfig, r: Result<(), Error>| #[trigger]
            call_ensures(FileConfig::save_git_merge_output, (c, name, output), r) ==> {
                let used = output.current_sync_branch@;
                let known = c@.repo_caches.contains_key(name@);
                let all = seq![used] + c@.sync_branch_history.filter(|b: Seq<char>| b != used);
                &&& r is Ok <==> known
                &&& !known ==> final(c)@ == c@
                &&& known ==> final(c)@.repo_caches == c@.repo_caches.insert(
                    name@,
                    RepoCacheView {
                        last_local_branch: output.current_local_branch@,
                        last_sync_branch: used,
                        ..c@.repo_caches[name@]
                    },
                )
                &&& known && c@.sync_branch_history.no_duplicates()
                    ==> final(c)@.sync_branch_history == if all.len() > 10 {
                    all.take(10)
                } else {
                    all
                }
            },
{
    assert forall|c: &mut FileConfig, r: Result<(), Error>| #[trigger]
        call_ensures(FileConfig::save_git_merge_output, (c, name, output), r)
            && c@.repo_caches.contains_key(name@)
            && c@.sync_branch_history.no_duplicates() implies {
        let used = output.current_sync_branch@;
        let all = seq![used] + c@.sync_branch_history.filter(|b: Seq<char>| b != used);
        final(c)@.sync_branch_history == if all.len() > 10 {
            all.take(10)
        } else {
            all
        }
    } by {
        task_containers::lemma_without_first(
            c@.sync_branch_history,
            output.current_sync_branch@,
        );
    }
}

/// A repository is built in its binary directory, and installed unless it is the executable; with
/// the configuration and the number of jobs that are set.
pub proof fn law_building_follows_the_settings(
    settings: &FileConfig,
    style: &PathStyle,
    name: &str,
    r: Result<BuildInstallInput, Error>,
)
    requires
        call_ensures(FileConfig::build_install_input, (settings, style, name), r),
    ensures
        ({
            let cache = settings@.repo_caches[name@];
            &&& r is Ok <==> settings@.repo_caches.contains_key(name@)
            &&& r matches Ok(input) ==> {
                &&& input.repo_path@ == cache.repo_dir
                &&& input.build_config@ == settings@.config
                &&& input.need_install <==> name@ != settings@.executable.identification_name
                &&& input.cmake_pkg_name@ == cache.cmake_pkg_name
                &&& input.install_prefix@ == paths::joined_path(
                    style@,
                    cache.repo_dir,
                    cache.install_prefix,
                )
                &&& input.cmake_binary_dir@ == paths::joined_path(
                    style@,
                    cache.repo_dir,
                    cache.cmake_binary_dir,
                )
                &&& input.build_parallel == settings@.cmake_build_parallel
                &&& input.cmake_generator@ == cache.cmake_generator
            }
        }),
{
}

/// A database is made from the solution of a repository that was configured for Visual Studio,
/// which must be there, and from nothing otherwise.
pub proof fn law_databases_are_made_from_solutions(
    settings: &FileConfig,
    style: &PathStyle,
    name: &str,
    is_there: bool,
    sln: Result<String, Error>,
    r: Result<CompileCommandsInput<'_>, Error>,
)
    requires
        call_ensures(FileConfig::get_sln_file_path, (settings, style, name), sln),
        call_ensures(FileConfig::compile_commands_input, (settings, style, name, is_there), r),
    ensures
        ({
            let generator = settings@.repo_caches[name@].cmake_generator;
            let known = settings@.repo_caches.contains_key(name@);
            let solved = exists|before: Seq<char>, after: Seq<char>|
                generator == #[trigger] (before + "Visual Studio"@ + after);
            &&& r is Ok <==> known && (solved ==> sln is Ok && is_there)
            &&& r matches Ok(input) ==> {
                &&& *input.compile_commands_config == settings.compile_commands_config
                &&& match input.sln_path {
                    Some(path) => solved && path@ == sln->Ok_0@,
                    None => !solved,
                }
            }
        }),
{
    text_laws::law_containing(settings@.repo_caches[name@].cmake_generator, "Visual Studio"@);
}

/// The toolchain that was made for a repository is kept, told from its root, with its hash; what
/// was not made anew stays as it was.
pub proof fn law_toolchains_are_kept(context: &PathContext, name: &str, output: ConanInstallOutput)
    ensures
        forall|c: &mut FileConfig, r: Result<(), Error>| #[trigger]
            call_ensures(FileConfig::save_conan_install_output, (c, context, name, output), r) ==> {
                let known = c@.repo_caches.contains_key(name@);
                let cache = c@.repo_caches[name@];
                let path = match output.conan_toolchain_path {
                    Some(path) => told_from(*context, cache.repo_dir, path@),
                    None => Some(cache.conan_toolchain_path),
                };
                &&& r is Ok <==> known && path is Some
                &&& r is Err ==> final(c)@ == c@
                &&& r is Ok ==> final(c)@ == (FileConfigView {
                    repo_caches: c@.repo_caches.insert(
                        name@,
                        RepoCacheView {
                            conan_toolchain_path: path->0,
                            conan_toolchain_hash: match output.new_conan_toolchain_hash {
                                Some(hash) => hash,
                                None => cache.conan_toolchain_hash,
                            },
                            ..cache
                        },
                    ),
                    ..c@
                })
            },
{
}

/// Where the configuration of an installed package is, is kept, told from the root of the
/// repository; one that has none loses what was kept.
pub proof fn law_installed_packages_are_kept(
    context: &PathContext,
    name: &str,
    output: BuildInstallOutput,
)
    ensures
        forall|c: &mut FileConfig, r: Result<(), Error>| #[trigger]
            call_ensures(FileConfig::save_build_install_output, (c, context, name, output), r) ==> {
                let known = c@.repo_caches.contains_key(name@);
                let cache = c@.repo_caches[name@];
                let dir = match output.cmake_pkg_config_dir {
                    Some(dir) => told_from(*context, cache.repo_dir, dir@),
                    None => Some(Seq::empty()),
                };
                &&& r is Ok <==> known && dir is Some
                &&& r is Err ==> final(c)@ == c@
                &&& r is Ok ==> final(c)@ == (FileConfigView {
                    repo_caches: c@.repo_caches.insert(
                        name@,
                        RepoCacheView { cmake_pkg_config_dir: dir->0, ..cache },
                    ),
                    ..c@
                })
            },
{
}

/// A repository is brought up to date from the branches that were used for it, with all branches
/// that are remembered.
pub proof fn law_merging_follows_the_settings(
    settings: &FileConfig,
    name: &str,
    r: Result<GitMergeInput, Error>,
)
    requires
        call_ensures(FileConfig::git_merge_input, (settings, name), r),
    ensures
        ({
            let cache = settings@.repo_caches[name@];
            &&& r is Ok <==> settings@.repo_caches.contains_key(name@)
            &&& r matches Ok(input) ==> {
                &&& input.repo_path@ == cache.repo_dir
                &&& input.last_local_branch@ == cache.last_local_branch
                &&& input.last_sync_branch@ == cache.last_sync_branch
                &&& text::texts(input.sync_branch_history@) == settings@.sync_branch_history
            }
        }),
{
}

/// A task that is marked as finished for a repository is found finished for it; every other task
/// and repository is found as before.
pub proof fn law_marks_are_found(
    name: &str,
    task: &str,
    other: &str,
    other_task: &str,
    before: &FileConfig,
    after: &FileConfig,
    was: bool,
    is: bool,
)
    requires
        exists|c: &mut FileConfig|
            *c == *before && *final(c) == *after && #[trigger] call_ensures(
                FileConfig::mark_task_finish,
                (c, name, task),
                (),
            ),
        call_ensures(FileConfig::is_task_finished, (before, other, other_task), was),
        call_ensures(FileConfig::is_task_finished, (after, other, other_task), is),
    ensures
        is <==> was || (other@ == name@ && other_task@ == task@),
{
}

/// A fingerprint that is kept for a task on a repository is the one that is found for it, and no
/// other changes.
pub proof fn law_fingerprints_are_found(
    name: &str,
    task: &str,
    fingerprint: String,
    other: &str,
    other_task: &str,
    before: &FileConfig,
    after: &FileConfig,
    r: Result<(), Error>,
    was: String,
    is: String,
)
    requires
        exists|c: &mut FileConfig|
            *c == *before && *final(c) == *after && #[trigger] call_ensures(
                FileConfig::save_fingerprint_json,
                (c, name, task, fingerprint),
                r,
            ),
        call_ensures(FileConfig::get_fingerprint_json, (before, other, other_task), was),
        call_ensures(FileConfig::get_fingerprint_json, (after, other, other_task), is),
    ensures
        r is Ok <==> before@.repo_caches.contains_key(name@),
        is@ == if r is Ok && other@ == name@ && other_task@ == task@ {
            fingerprint@
        } else {
            was@
        },
{
}

/// A session without settings has none of anything, builds with debug information, and asks for
/// nothing; a repository without settings uses Visual Studio, keeps its packages in `build/conan`,
/// sees to its toolchain itself, takes part and is not cloned.
pub proof fn law_defaults(settings: FileConfig, own: RepoConfig)
    requires
        call_ensures(FileConfig::default, (), settings),
        call_ensures(RepoConfig::empty, (), own),
    ensures
        settings@.executable == own@,
        settings@.possible_dependencies.len() == 0,
        settings@.debug_repo_names.len() == 0,
        settings@.config == "RelWithDebInfo"@,
        settings@.common_conan_options.len() == 0,
        settings@.cmake_build_parallel == CMakeBuildParallel::Disabled,
        !settings@.enable_merge,
        !settings@.need_conan_install,
        !settings@.need_conan_install_update,
        !settings@.compile_commands_enabled,
        settings@.compile_commands_options.len() == 0,
        settings@.repo_caches.dom().len() == 0,
        settings@.completed_tasks.dom().len() == 0,
        settings@.sync_branch_history.len() == 0,
        settings@.sorted_names.len() == 0,
        settings@.need_debug_pkgs.len() == 0,
        own@.url.len() == 0,
        own@.path.len() == 0,
        own@.identification_name.len() == 0,
        own@.extra_conan_options.len() == 0,
        own@.extra_cmake_options.len() == 0,
        own@.cmake_generator_keyword == "Visual Studio"@,
        own@.conan_output_folder == "build/conan"@,
        own@.conan_toolchain_managed_by_cmake,
        !own@.auto_clone,
        own@.enable,
{
}

/// The settings are those of the file that is named, or of the one in the current directory; its
/// directory is that of the session. What was kept is taken over, and the rest stands in the file.
pub proof fn law_sessions_are_put_together(
    context: &PathContext,
    args: &RunArgs,
    file: FileConfig,
    kept: InterruptCache,
    path: String,
    same_path: &str,
    dir: String,
    checked: Result<(), Error>,
    r: Result<FileConfig, Error>,
)
    requires
        call_ensures(config::config_file_path, (args,), path),
        same_path@ == path@,
        call_ensures(config::work_dir_of, (context, same_path), dir),
        call_ensures(FileConfig::validate, (&file,), checked),
        call_ensures(config::build_runtime_context, (context, args, file, kept), r),
    ensures
        args.config_file matches Some(named) ==> path@ == named@,
        args.config_file is None ==> path@ == "multi_repo_debug_param.json"@,
        paths::parent_path(context.style_view(), path@) matches Some(parent) ==> dir@
            == context.absolute(parent),
        r is Ok <==> checked is Ok,
        r matches Ok(all) ==> all@ == (FileConfigView {
            work_dir: dir@,
            self_file_path: path@,
            repo_caches: kept.interrupt_repo_cache@,
            completed_tasks: kept.completed_tasks@,
            sync_branch_history: text::texts(kept.sync_branch_history@),
            ..file@
        }),
{
}

/// A file with settings that is not there is made anew exactly where the user named none; what is
/// said names it.
pub proof fn law_missing_settings(args: &RunArgs, path: String, r: MissingConfig)
    requires
        call_ensures(config::config_file_path, (args,), path),
        call_ensures(config::load_or_create_file_config, (args,), r),
    ensures
        r.create <==> args.config_file is None,
        exists|before: Seq<char>, after: Seq<char>|
            r.message@ == #[trigger] (before + path@ + after),
{
    if args.config_file is Some {
        assert(r.message@ =~= "Config file not found: "@ + path@ + Seq::empty());
    } else {
        assert(r.message@ =~= "Created default config at "@ + path@ + (
        ". Please edit the file and run: multi_repo_debug_tool -c "@ + path@));
    }
}

/// What is refused is named: a directory without a repository with its full path, and a repository
/// without settings or of which nothing is known with its name.
pub proof fn law_refusals_name_what_is_refused(
    settings: &FileConfig,
    context: &PathContext,
    map: &Vec<RepoPath>,
    dir: &str,
    name: &str,
    found: Result<String, Error>,
    own: Result<&RepoConfig, Error>,
    known: Result<&InterruptRepoCache, Error>,
)
    requires
        call_ensures(config::convert_path_dir_to_conan_name, (context, map, dir), found),
        call_ensures(FileConfig::get_repo_config, (settings, name), own),
        call_ensures(FileConfig::get_interrupt_repo_cache, (settings, name), known),
    ensures
        found matches Err(e) ==> text::ends_in(e.message@, context.absolute(dir@)),
        own matches Err(e) ==> text::ends_in(e.message@, name@),
        known is Ok <==> settings@.repo_caches.contains_key(name@),
        known matches Ok(cache) ==> cache@ == settings@.repo_caches[name@],
        known matches Err(e) ==> text::ends_in(e.message@, name@),
{
    let full = context.absolute(dir@);
    text_laws::law_containing("No identification name found for directory: "@ + full, full);
    text_laws::law_containing("RepoConfig not found for: "@ + name@, name@);
    text_laws::law_containing("Dependency not found: "@ + name@, name@);
}

/// A path below a repository is told from its root, and leads back from there.
pub proof fn law_paths_in_repositories(
    cache: &InterruptRepoCache,
    context: &PathContext,
    style: &PathStyle,
    path: &str,
    told: Result<String, Error>,
    full: String,
)
    requires
        call_ensures(InterruptRepoCache::get_rel_path, (cache, context, path), told),
        call_ensures(InterruptRepoCache::get_abs_path, (cache, style, path), full),
    ensures
        match told {
            Ok(relative) => told_from(*context, cache@.repo_dir, path@) == Some(relative@),
            Err(_) => told_from(*context, cache@.repo_dir, path@) is None,
        },
        full@ == paths::joined_path(style@, cache@.repo_dir, path@),
{
}

} // verus!
