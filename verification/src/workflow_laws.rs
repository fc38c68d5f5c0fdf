//! What holds of a session: what it does in which order, and with which repositories.

use crate::cli::{ConfigCommand, EachCommand, RunArgs};
use crate::conanfile::DependencyTopologicalInfo;
use crate::config::settings_laws;
use crate::config::{self, FileConfig, FileConfigView};
use crate::each_repo_command::{
    self, CommandLine, EachRepoExecutionError, EachRunner, EachStep, Trial,
};
use crate::error::Error;
use crate::maps;
use crate::paths::{self, PathContext, PathStyle};
use crate::text;
use crate::text_laws;
use crate::workflow::{
    self, DllCopyPlan, PublishDirs, RunAction, RunEvent, Session, SolutionMergePlan,
};
use vstd::prelude::*;

verus! {

/// A session that only looks does nothing; another one begins with merging branches where that is
/// wanted, and with installing packages otherwise.
pub proof fn law_sessions_start(args: &RunArgs, s: Session, first: RunAction)
    requires
        call_ensures(Session::new, (args,), s),
        call_ensures(Session::action, (&s,), first),
    ensures
        s@.failure is None,
        args.check_only ==> first == RunAction::Finish,
        !args.check_only && args.enable_merge ==> first == RunAction::MergeBranches,
        !args.check_only && !args.enable_merge ==> first == RunAction::InstallPackages,
{
}

/// What goes well is followed by the next action: branches, sorting, packages, the build, the
/// databases, publishing them, solutions, libraries, and the end.
pub proof fn law_sessions_go_on()
    ensures
        forall|s: &mut Session, event: RunEvent| #[trigger]
            call_ensures(Session::advance, (s, event), ()) && (event is Done || event
                == RunEvent::Sorted { same: true }) ==> {
                &&& final(s)@.failure == s@.failure
                &&& s@.action == RunAction::MergeBranches ==> final(s)@.action
                    == RunAction::SortAgain
                &&& s@.action == RunAction::SortAgain ==> final(s)@.action
                    == RunAction::InstallPackages
                &&& s@.action == RunAction::InstallPackages ==> final(s)@.action
                    == RunAction::Build
                &&& s@.action == RunAction::Build ==> final(s)@.action == RunAction::MakeDatabases
                &&& s@.action == RunAction::MakeDatabases ==> final(s)@.action
                    == RunAction::PublishDatabases
                &&& s@.action == RunAction::PublishDatabases ==> final(s)@.action
                    == RunAction::MergeSolutions
                &&& s@.action == RunAction::MergeSolutions ==> final(s)@.action
                    == if s@.failure is None {
                    RunAction::CopyLibraries
                } else {
                    RunAction::Finish
                }
                &&& s@.action == RunAction::CopyLibraries || s@.action == RunAction::Finish
                    ==> final(s)@.action == RunAction::Finish
            },
{
}

/// A failure is what the session ends with unless there was one before it. It ends the session at
/// once, except that databases and solutions are seen to after a failed build.
pub proof fn law_sessions_fail()
    ensures
        forall|s: &mut Session, event: RunEvent| #[trigger]
            call_ensures(Session::advance, (s, event), ()) && (event is Failed || event
                == RunEvent::Sorted { same: false }) ==> {
                &&& final(s)@.failure is Some
                &&& s@.failure is Some ==> final(s)@.failure == s@.failure
                &&& event matches RunEvent::Failed(e) ==> s@.failure is None
                    ==> final(s)@.failure == Some(e)
                &&& event is Sorted || !(s@.action == RunAction::Build || s@.action
                    == RunAction::MakeDatabases || s@.action == RunAction::PublishDatabases)
                    ==> final(s)@.action == RunAction::Finish
                &&& event is Failed && s@.action == RunAction::Build ==> final(s)@.action
                    == RunAction::MakeDatabases
                &&& event is Failed && s@.action == RunAction::MakeDatabases ==> final(s)@.action
                    == RunAction::PublishDatabases
                &&& event is Failed && s@.action == RunAction::PublishDatabases
                    ==> final(s)@.action == RunAction::MergeSolutions
            },
{
}

/// What tasks are finished is forgotten exactly where the session neither goes on where the last
/// one stopped nor only looks; nothing else changes.
pub proof fn law_progress_is_prepared(args: &RunArgs)
    ensures
        forall|c: &mut FileConfig| #[trigger]
            call_ensures(workflow::prepare_progress, (c, args), ()) ==> {
                let done = if args.is_continue || args.check_only {
                    c@.completed_tasks
                } else {
                    Map::empty()
                };
                final(c)@ == (FileConfigView { completed_tasks: done, ..c@ })
            },
{
}

proof fn lemma_participating(
    view: FileConfigView,
    debug: Seq<Seq<char>>,
    needed: Seq<Seq<char>>,
)
    ensures
        workflow::participating_of(view, debug, needed) == debug.filter(
            |n: Seq<char>| needed.contains(n) && settings_laws::takes_part(view, n),
        ),
    decreases debug.len(),
{
    reveal(Seq::filter);
    if debug.len() > 0 {
        lemma_participating(view, debug.drop_last(), needed);
        settings_laws::lemma_dependency_named(view, debug.last());
    }
}

/// Of the repositories under debug exactly those are shown that are to be built and take part.
pub proof fn law_repositories_under_debug_participate(
    settings: &FileConfig,
    info: &DependencyTopologicalInfo,
    r: Vec<String>,
)
    requires
        call_ensures(workflow::participating, (settings, info), r),
    ensures
        text::texts(r@) == settings@.debug_repo_names.filter(
            |n: Seq<char>|
                text::texts(info.need_debug_pkgs@).contains(n) && settings_laws::takes_part(
                    settings@,
                    n,
                ),
        ),
{
    lemma_participating(
        settings@,
        settings@.debug_repo_names,
        text::texts(info.need_debug_pkgs@),
    );
}

proof fn lemma_disabled(view: FileConfigView, names: Seq<Seq<char>>)
    ensures
        workflow::disabled_of(view, names) == names.filter(
            |n: Seq<char>| !settings_laws::takes_part(view, n),
        ),
    decreases names.len(),
{
    reveal(Seq::filter);
    if names.len() > 0 {
        lemma_disabled(view, names.drop_last());
        settings_laws::lemma_dependency_named(view, names.last());
    }
}

/// The packages to build are parted into those that take part, which stay, and the others, which
/// are told; both keep their order.
pub proof fn law_disabled_packages_are_told(settings: &FileConfig)
    ensures
        forall|info: &mut DependencyTopologicalInfo, r: Vec<String>| #[trigger]
            call_ensures(workflow::leave_out_disabled, (settings, info), r) ==> {
                let all = text::texts(info.sorted_names@);
                &&& text::texts(r@) == all.filter(
                    |n: Seq<char>| !settings_laws::takes_part(settings@, n),
                )
                &&& text::texts(final(info).sorted_names@) == all.filter(
                    |n: Seq<char>| settings_laws::takes_part(settings@, n),
                )
                &&& final(info).graph == info.graph
                &&& final(info).need_debug_pkgs == info.need_debug_pkgs
            },
{
    assert forall|info: &mut DependencyTopologicalInfo, r: Vec<String>| #[trigger]
        call_ensures(workflow::leave_out_disabled, (settings, info), r) implies {
        let all = text::texts(info.sorted_names@);
        &&& text::texts(r@) == all.filter(
            |n: Seq<char>| !settings_laws::takes_part(settings@, n),
        )
        &&& text::texts(final(info).sorted_names@) == all.filter(
            |n: Seq<char>| settings_laws::takes_part(settings@, n),
        )
        &&& final(info).graph == info.graph
        &&& final(info).need_debug_pkgs == info.need_debug_pkgs
    } by {
        lemma_disabled(settings@, text::texts(info.sorted_names@));
        settings_laws::lemma_enabled_of(settings@, text::texts(info.sorted_names@));
    }
}

proof fn lemma_without(names: Seq<Seq<char>>, name: Seq<char>)
    ensures
        config::without_name(names, name) == names.filter(|n: Seq<char>| n != name),
    decreases names.len(),
{
    reveal(Seq::filter);
    if names.len() > 0 {
        lemma_without(names.drop_last(), name);
    }
}

/// The repository was configured for Visual Studio.
pub open spec fn has_solution(view: FileConfigView, name: Seq<char>) -> bool {
    exists|before: Seq<char>, after: Seq<char>|
        view.repo_caches[name].cmake_generator == #[trigger] (before + "Visual Studio"@ + after)
}

/// Where the solution of a repository is.
pub open spec fn solution_at(view: FileConfigView, style: char, name: Seq<char>) -> Seq<char> {
    let cache = view.repo_caches[name];
    paths::joined_path(
        style,
        paths::joined_path(style, cache.repo_dir, cache.cmake_binary_dir),
        cache.cmake_pkg_name + ".sln"@,
    )
}

/// The libraries of all packages but the executable are brought to its solution, from the binary
/// directory of each in turn; nothing is brought where the executable has no solution.
pub proof fn law_libraries_come_from_all_packages(
    style: &PathStyle,
    settings: &FileConfig,
    all: &Vec<String>,
    r: Result<Option<DllCopyPlan>, Error>,
)
    requires
        call_ensures(workflow::copy_dll, (style, settings, all), r),
    ensures
        ({
            let view = settings@;
            let own = view.executable.identification_name;
            let known = view.repo_caches.contains_key(own);
            let others = text::texts(all@).filter(|n: Seq<char>| n != own);
            &&& r is Err <==> !known || (has_solution(view, own)
                && view.repo_caches[own].cmake_pkg_name.len() == 0)
            &&& r is Ok ==> (r->Ok_0 is Some <==> has_solution(view, own))
            &&& r matches Ok(Some(plan)) ==> {
                &&& plan.target_sln@ == solution_at(view, style@, own)
                &&& plan.build_type@ == view.config
                &&& text::texts(plan.source_dirs@) == others.map_values(
                    |n: Seq<char>|
                        paths::joined_path(
                            style@,
                            view.repo_caches[n].repo_dir,
                            view.repo_caches[n].cmake_binary_dir,
                        ),
                )
            }
        }),
{
    let view = settings@;
    let own = view.executable.identification_name;
    text_laws::law_containing(view.repo_caches[own].cmake_generator, "Visual Studio"@);
    lemma_without(text::texts(all@), own);
    if let Ok(Some(plan)) = r {
        let others = text::texts(all@).filter(|n: Seq<char>| n != own);
        assert(text::texts(plan.source_dirs@) =~= others.map_values(
            |n: Seq<char>|
                paths::joined_path(
                    style@,
                    view.repo_caches[n].repo_dir,
                    view.repo_caches[n].cmake_binary_dir,
                ),
        ));
    }
}

/// The database of a repository is published from its binary directory, unless it was configured
/// for Visual Studio and none is to be made.
pub proof fn law_databases_are_published_unless_unwanted(
    style: &PathStyle,
    settings: &FileConfig,
    name: &str,
    r: Result<Option<PublishDirs>, Error>,
)
    requires
        call_ensures(workflow::copy_compile_commands, (style, settings, name), r),
    ensures
        ({
            let view = settings@;
            let cache = view.repo_caches[name@];
            &&& r is Ok <==> view.repo_caches.contains_key(name@)
            &&& r is Ok ==> (r->Ok_0 is None <==> has_solution(view, name@)
                && !view.compile_commands_enabled)
            &&& r matches Ok(Some(dirs)) ==> dirs.repo_dir@ == cache.repo_dir && dirs.binary_dir@
                == paths::joined_path(style@, cache.repo_dir, cache.cmake_binary_dir)
        }),
{
    text_laws::law_containing(settings@.repo_caches[name@].cmake_generator, "Visual Studio"@);
}

proof fn lemma_with_solutions(
    view: FileConfigView,
    names: Seq<Seq<char>>,
    visual_studio: bool,
)
    ensures
        workflow::with_solutions(view, names, visual_studio) == names.filter(
            |n: Seq<char>| has_solution(view, n) == visual_studio,
        ),
    decreases names.len(),
{
    reveal(Seq::filter);
    if names.len() > 0 {
        lemma_with_solutions(view, names.drop_last(), visual_studio);
        text_laws::law_containing(
            view.repo_caches[names.last()].cmake_generator,
            "Visual Studio"@,
        );
    }
}

proof fn lemma_first_without_solution(
    view: FileConfigView,
    names: Seq<Seq<char>>,
    from: int,
)
    requires
        0 <= from <= names.len(),
    ensures
        ({
            let n = workflow::first_without_solution(view, names, from);
            &&& from <= n <= names.len()
            &&& forall|i: int|
                from <= i < n ==> view.repo_caches.contains_key(#[trigger] names[i])
                    && view.repo_caches[names[i]].cmake_pkg_name.len() > 0
            &&& n < names.len() ==> !(view.repo_caches.contains_key(names[n])
                && view.repo_caches[names[n]].cmake_pkg_name.len() > 0)
        }),
    decreases names.len() - from,
{
    if from < names.len() && view.solution_fault(names[from]) is None {
        lemma_first_without_solution(view, names, from + 1);
    }
}

/// The solutions of all packages under debug but the executable that have one are merged into that
/// of the executable, in their order; the packages without one are told. Nothing is merged where
/// the executable has no solution, or a package is unknown or its solution without a name.
pub proof fn law_solutions_of_all_packages_are_merged(
    style: &PathStyle,
    settings: &FileConfig,
    packages: &Vec<String>,
    r: Result<Option<SolutionMergePlan>, Error>,
)
    requires
        call_ensures(workflow::merge_sln, (style, settings, packages), r),
    ensures
        ({
            let view = settings@;
            let own = view.executable.identification_name;
            let known = view.repo_caches.contains_key(own);
            let others = text::texts(packages@).filter(|n: Seq<char>| n != own);
            let merged = others.filter(|n: Seq<char>| has_solution(view, n) == true);
            &&& r is Ok ==> known && (r->Ok_0 is Some <==> has_solution(view, own))
            &&& r is Err <==> !known || (has_solution(view, own) && !(
            view.repo_caches[own].cmake_pkg_name.len() > 0 && (forall|i: int|
                0 <= i < others.len() ==> view.repo_caches.contains_key(#[trigger] others[i]))
                && (forall|i: int|
                0 <= i < merged.len() ==> view.repo_caches[
                    #[trigger] merged[i]].cmake_pkg_name.len() > 0)))
            &&& r matches Ok(Some(plan)) ==> {
                &&& plan.target_sln@ == solution_at(view, style@, own)
                &&& text::texts(plan.merged_names@) == merged
                &&& text::texts(plan.skipped_names@) == others.filter(
                    |n: Seq<char>| has_solution(view, n) == false,
                )
                &&& text::texts(plan.source_slns@) == merged.map_values(
                    |n: Seq<char>| solution_at(view, style@, n),
                )
            }
        }),
{
    let view = settings@;
    let own = view.executable.identification_name;
    let names = text::texts(packages@);
    let others = names.filter(|n: Seq<char>| n != own);
    let merged = others.filter(|n: Seq<char>| has_solution(view, n) == true);
    text_laws::law_containing(view.repo_caches[own].cmake_generator, "Visual Studio"@);
    lemma_without(names, own);
    lemma_with_solutions(view, others, true);
    lemma_with_solutions(view, others, false);
    settings_laws::lemma_first_unknown(view, others, 0);
    lemma_first_without_solution(view, merged, 0);
    assert forall|i: int| 0 <= i < merged.len() implies others.contains(#[trigger] merged[i]) by {
        text_laws::lemma_filtered(
            others,
            |n: Seq<char>| has_solution(view, n) == true,
            merged[i],
        );
    }
    assert((forall|i: int|
        0 <= i < others.len() ==> view.repo_caches.contains_key(#[trigger] others[i]))
        ==> forall|i: int|
        0 <= i < merged.len() ==> view.repo_caches.contains_key(#[trigger] merged[i]));
    if let Ok(Some(plan)) = r {
        assert(text::texts(plan.source_slns@) =~= merged.map_values(
            |n: Seq<char>| solution_at(view, style@, n),
        ));
    }
}

/// A change of the settings is refused exactly where it says nothing.
pub proof fn law_empty_changes_are_refused(cmd: &ConfigCommand, r: Result<(), Error>)
    requires
        call_ensures(workflow::check_config_command, (cmd,), r),
    ensures
        r is Err <==> cmd.add@.len() == 0 && cmd.remove@.len() == 0 && cmd.build_type is None,
{
}

/// A change puts the repositories of some directories under debug and then takes those of others
/// from there; after that it sets the build type. It succeeds exactly where no directory is stray
/// and the build type is one, and nothing else changes.
pub proof fn law_settings_are_changed(context: &PathContext, cmd: &ConfigCommand)
    ensures
        forall|c: &mut FileConfig, r: Result<(), Error>| #[trigger]
            call_ensures(workflow::apply_config_command, (context, c, cmd), r) ==> {
                let n = cmd.add@.len() as int;
                let m = cmd.remove@.len() as int;
                let owned = settings_laws::is_first_stray(c@, *context, cmd.add@, n)
                    && settings_laws::is_first_stray(c@, *context, cmd.remove@, m);
                let before = c@.debug_repo_names;
                let after = final(c)@.debug_repo_names;
                &&& final(c)@ == FileConfigView {
                    debug_repo_names: after,
                    config: final(c)@.config,
                    ..c@
                }
                &&& r is Ok <==> owned && (cmd.build_type matches Some(t) ==> seq![
                    "Debug"@,
                    "Release"@,
                    "RelWithDebInfo"@,
                    "MinSizeRel"@,
                ].contains(t@))
                &&& r is Ok ==> final(c)@.config == match cmd.build_type {
                    Some(t) => t@,
                    None => c@.config,
                }
                &&& !owned ==> final(c)@.config == c@.config
                &&& owned && r is Err ==> final(c)@.config == (if c@.config.len() == 0 {
                    "RelWithDebInfo"@
                } else {
                    c@.config
                })
                &&& owned ==> forall|name: Seq<char>| #[trigger]
                    after.contains(name) <==> (before.contains(name) || settings_laws::is_reached(
                        c@,
                        *context,
                        cmd.add@,
                        n,
                        name,
                    )) && !settings_laws::is_reached(c@, *context, cmd.remove@, m, name)
            },
{
    assert forall|c: &mut FileConfig, r: Result<(), Error>| #[trigger]
        call_ensures(workflow::apply_config_command, (context, c, cmd), r) implies {
        let n = cmd.add@.len() as int;
        let m = cmd.remove@.len() as int;
        let owned = settings_laws::is_first_stray(c@, *context, cmd.add@, n)
            && settings_laws::is_first_stray(c@, *context, cmd.remove@, m);
        let before = c@.debug_repo_names;
        let after = final(c)@.debug_repo_names;
        &&& final(c)@ == FileConfigView {
            debug_repo_names: after,
            config: final(c)@.config,
            ..c@
        }
        &&& r is Ok <==> owned && (cmd.build_type matches Some(t) ==> seq![
            "Debug"@,
            "Release"@,
            "RelWithDebInfo"@,
            "MinSizeRel"@,
        ].contains(t@))
        &&& r is Ok ==> final(c)@.config == match cmd.build_type {
            Some(t) => t@,
            None => c@.config,
        }
        &&& !owned ==> final(c)@.config == c@.config
        &&& owned && r is Err ==> final(c)@.config == (if c@.config.len() == 0 {
            "RelWithDebInfo"@
        } else {
            c@.config
        })
        &&& owned ==> forall|name: Seq<char>| #[trigger]
            after.contains(name) <==> (before.contains(name) || settings_laws::is_reached(
                c@,
                *context,
                cmd.add@,
                n,
                name,
            )) && !settings_laws::is_reached(c@, *context, cmd.remove@, m, name)
    } by {
        let view = c@;
        let n = cmd.add@.len() as int;
        let m = cmd.remove@.len() as int;
        maps::lemma_finite_keys(c.interrupt_cache.interrupt_repo_cache);
        let k = settings_laws::lemma_reached(view, *context, cmd.add@);
        let l = settings_laws::lemma_reached(view, *context, cmd.remove@);
        let added = view.owners_of(*context, text::texts(cmd.add@));
        let removed = view.owners_of(*context, text::texts(cmd.remove@));
        assert(added.len() == n && removed.len() == m);
        if settings_laws::is_first_stray(view, *context, cmd.add@, n) {
            settings_laws::lemma_one_stray(view, *context, cmd.add@, n, k);
        }
        if settings_laws::is_first_stray(view, *context, cmd.remove@, m) {
            settings_laws::lemma_one_stray(view, *context, cmd.remove@, m, l);
        }
        let more = config::owner_names(added, k);
        let less = config::owner_names(removed, l);
        let with = config::with_names(view.debug_repo_names, more);
        config::law_added_repositories_are_under_debug(view.debug_repo_names, more);
        config::law_removed_repositories_are_not_under_debug(with, less);
        if let Some(t) = cmd.build_type {
            settings_laws::lemma_four(
                "Debug"@,
                "Release"@,
                "RelWithDebInfo"@,
                "MinSizeRel"@,
                t@,
            );
        }
        if k == n && l == m {
            let after = final(c)@.debug_repo_names;
            assert(after == config::without_names(with, less));
            assert forall|name: Seq<char>| #[trigger]
                after.contains(name) <==> (view.debug_repo_names.contains(name)
                    || settings_laws::is_reached(view, *context, cmd.add@, n, name))
                    && !settings_laws::is_reached(view, *context, cmd.remove@, m, name) by {
                assert(with.contains(name) <==> view.debug_repo_names.contains(name)
                    || more.contains(name));
                assert(settings_laws::is_reached(view, *context, cmd.add@, k, name)
                    <==> more.contains(name));
                assert(settings_laws::is_reached(view, *context, cmd.remove@, l, name)
                    <==> less.contains(name));
            }
        }
    }
}

/// The description of what went wrong in the repositories holds each failure that was put off,
/// with its number, in their order, and ends with the one that ended it, if one did. Nothing is
/// said where nothing went wrong.
pub proof fn law_failures_are_described(
    deferred: Vec<Error>,
    interrupted: Option<Error>,
    r: EachRepoExecutionError,
    i: int,
)
    requires
        call_ensures(EachRepoExecutionError::new, (deferred, interrupted), r),
        0 <= i < deferred@.len(),
    ensures
        r.deferred_errors@ == deferred@,
        r.interrupted == interrupted,
        exists|before: Seq<char>, after: Seq<char>|
            r.detail@ == #[trigger] (before + ("\n  "@ + text::decimal_of((i + 1) as nat) + ". "@
                + deferred@[i].message@) + after),
        interrupted matches Some(e) ==> exists|before: Seq<char>|
            r.detail@ == #[trigger] (before + ("each command interrupted at repo '"@ + e.message@
                + "'"@)),
        exists|after: Seq<char>|
            r.detail@ == #[trigger] (("each command recorded "@ + text::decimal_of(
                deferred@.len(),
            ) + " deferred error(s):"@) + after),
{
    let errors = deferred@;
    let item = "\n  "@ + text::decimal_of((i + 1) as nat) + ". "@ + errors[i].message@;
    let head = "each command recorded "@ + text::decimal_of(errors.len())
        + " deferred error(s):"@;
    let lines = each_repo_command::deferred_lines(errors);
    let (before, after) = lemma_deferred_line(errors, i);
    let tail = match interrupted {
        Some(e) => "\n\n"@ + "each command interrupted at repo '"@ + e.message@ + "'"@,
        None => Seq::empty(),
    };
    assert(r.detail@ =~= head + lines + tail);
    assert(r.detail@ =~= (head + before) + item + (after + tail));
    assert(r.detail@ =~= head + (lines + tail));
    if let Some(e) = interrupted {
        let end = "each command interrupted at repo '"@ + e.message@ + "'"@;
        assert(r.detail@ =~= (head + lines + "\n\n"@) + end);
    }
}

proof fn lemma_deferred_line(errors: Seq<Error>, i: int) -> (r: (Seq<char>, Seq<char>))
    requires
        0 <= i < errors.len(),
    ensures
        each_repo_command::deferred_lines(errors) == r.0 + ("\n  "@ + text::decimal_of(
            (i + 1) as nat,
        ) + ". "@ + errors[i].message@) + r.1,
    decreases errors.len(),
{
    let front = errors.drop_last();
    let rest = each_repo_command::deferred_lines(front);
    let item = "\n  "@ + text::decimal_of((i + 1) as nat) + ". "@ + errors[i].message@;
    if i == errors.len() - 1 {
        assert(each_repo_command::deferred_lines(errors) =~= rest + item + Seq::empty());
        (rest, Seq::empty())
    } else {
        let (before, after) = lemma_deferred_line(front, i);
        assert(front[i] == errors[i]);
        let last = "\n  "@ + text::decimal_of(errors.len()) + ". "@ + errors.last().message@;
        assert(each_repo_command::deferred_lines(errors) =~= rest + last);
        assert(rest + last =~= before + item + (after + last));
        (before, after + last)
    }
}

/// The failure was put off.
pub open spec fn is_put_off(trial: Trial) -> bool {
    trial matches Trial::Failed(_, answer) && answer == Ok::<bool, Error>(true)
}

/// Exactly the failures after which the user wants to go on are put off, in their order; what is
/// done ends at the first other one.
pub proof fn law_put_off_failures(trials: Seq<Trial>)
    ensures
        each_repo_command::deferred_of(trials) == trials.filter(
            |t: Trial| is_put_off(t),
        ).map_values(|t: Trial| t->Failed_0),
        forall|t: Trial| #[trigger]
            each_repo_command::is_stop(t) <==> !(t is Done) && !is_put_off(t),
    decreases trials.len(),
{
    reveal(Seq::filter);
    let keep = |t: Trial| is_put_off(t);
    let source = |t: Trial| t->Failed_0;
    if trials.len() > 0 {
        let front = trials.drop_last();
        law_put_off_failures(front);
        let rest = front.filter(keep);
        assert(rest.push(trials.last()).map_values(source) =~= rest.map_values(source).push(
            source(trials.last()),
        ));
    } else {
        assert(trials.filter(keep).map_values(source) =~= Seq::empty());
    }
}

/// A program is run with all its arguments, in their order; none is where nothing is given.
pub proof fn law_programs_keep_their_arguments(cmd: &Vec<String>, r: Option<CommandLine>)
    requires
        call_ensures(each_repo_command::custom_command, (cmd,), r),
    ensures
        r is Some <==> cmd@.len() > 0,
        r matches Some(line) ==> {
            &&& line.program@ == cmd@[0]@
            &&& line.arguments@.len() + 1 == cmd@.len()
            &&& forall|i: int|
                0 <= i < line.arguments@.len() ==> (#[trigger] line.arguments@[i])@ == cmd@[i
                    + 1]@
        },
{
    if let Some(line) = r {
        let all = text::texts(cmd@);
        let rest = text::texts(line.arguments@);
        let whole = seq![line.program@] + rest;
        assert(whole == all);
        assert(whole[0] == all[0]);
        assert(all.len() == cmd@.len() && rest.len() == line.arguments@.len());
        assert(whole.len() == all.len());
        assert forall|i: int| 0 <= i < line.arguments@.len() implies (
        #[trigger] line.arguments@[i])@ == cmd@[i + 1]@ by {
            assert(rest[i] == line.arguments@[i]@);
            assert(whole[i + 1] == rest[i]);
            assert(all[i + 1] == cmd@[i + 1]@);
        }
    }
}

/// What is done in the repositories is called by what it does: switching, or the program with its
/// arguments.
pub proof fn law_steps_are_told(cmd: Seq<Seq<char>>, names: Seq<Seq<char>>, i: int)
    requires
        0 <= i < names.len(),
    ensures
        each_repo_command::whole_plan(cmd, names)[i].action == "switch remote"@,
        each_repo_command::whole_plan(cmd, names)[names.len() + i].action == "custom command: "@
            + text::join_of(cmd, " "@),
{
}

/// A command for each repository is refused exactly where it says nothing.
pub proof fn law_empty_commands_are_refused(cmd: &EachCommand, r: Result<(), Error>)
    requires
        call_ensures(each_repo_command::check_arguments, (cmd,), r),
    ensures
        r is Err <==> cmd.switch_remote is None && cmd.cmd@.len() == 0,
{
}

/// A session ends with its failure, and well exactly where there is none.
pub proof fn law_sessions_end(s: Session, r: Result<(), Error>)
    requires
        call_ensures(Session::outcome, (s,), r),
    ensures
        r is Ok <==> s@.failure is None,
        r matches Err(e) ==> s@.failure == Some(e),
{
}

/// A failure that the user wants to go on after is put off, and one that they do not is what is
/// left; without an answer that is what is left, and tells the repository, what was done there and
/// why.
pub proof fn law_answers_decide(
    before: Seq<Error>,
    after: Seq<Error>,
    repo_name: Seq<char>,
    action: Seq<char>,
    source: Error,
    answer: Result<bool, Error>,
    r: Result<(), Error>,
)
    requires
        each_repo_command::follows(before, after, repo_name, action, source, answer, r),
    ensures
        answer == Ok::<bool, Error>(true) ==> r is Ok && after == before.push(source),
        answer != Ok::<bool, Error>(true) ==> r is Err && after == before,
        answer == Ok::<bool, Error>(false) ==> r == Err::<(), Error>(source),
        answer matches Err(cause) ==> (r matches Err(e) && text::contains_text(
            e.message@,
            repo_name,
        ) && text::ends_in(e.message@, action) && e.causes@ == seq![cause.message]
            + cause.causes@),
{
    let message = "failed to get continue confirmation after repo '"@ + repo_name
        + "' error while running "@ + action;
    text_laws::law_containing(message, repo_name);
    text_laws::law_containing(message, action);
    assert(message =~= "failed to get continue confirmation after repo '"@ + repo_name + (
    "' error while running "@ + action));
    assert(message =~= ("failed to get continue confirmation after repo '"@ + repo_name
        + "' error while running "@) + action);
}

/// Where nothing was put off, the description is that of the failure that ended it.
pub proof fn law_interruptions_are_described(
    deferred: Vec<Error>,
    interrupted: Option<Error>,
    r: EachRepoExecutionError,
)
    requires
        call_ensures(EachRepoExecutionError::new, (deferred, interrupted), r),
    ensures
        r.deferred_errors@ == deferred@,
        r.interrupted == interrupted,
        deferred@.len() == 0 ==> r.detail@ == (match interrupted {
            Some(e) => "each command interrupted at repo '"@ + e.message@ + "'"@,
            None => Seq::empty(),
        }),
{
    if let Some(e) = interrupted {
        if deferred@.len() == 0 {
            assert(r.detail@ =~= "each command interrupted at repo '"@ + e.message@ + "'"@);
        }
    }
}

/// After a stop nothing more is tried, and only a stop leaves something untried.
pub proof fn law_stops_end_it<R>(course: each_repo_command::Course<R>, n: nat, before: R, after: R, i: int)
    requires
        each_repo_command::is_course(course, n, before, after),
        0 <= i < course.trials.len(),
    ensures
        course.trials.len() <= n,
        !(course.trials[i] is Done) && !is_put_off(course.trials[i]) ==> i == course.trials.len()
            - 1,
        course.trials.len() < n ==> !(course.trials.last() is Done) && !is_put_off(
            course.trials.last(),
        ),
{
    law_put_off_failures(course.trials);
    assert(each_repo_command::is_stop(course.trials[i]) || course.trials[i] is Done || is_put_off(
        course.trials[i],
    ));
    assert(each_repo_command::is_stop(course.trials.last()) || course.trials.last() is Done
        || is_put_off(course.trials.last()));
}

proof fn lemma_nothing_put_off(trials: Seq<Trial>)
    requires
        each_repo_command::deferred_of(trials).len() == 0,
        forall|i: int| 0 <= i < trials.len() ==> !each_repo_command::is_stop(#[trigger] trials[i]),
    ensures
        forall|i: int| 0 <= i < trials.len() ==> #[trigger] trials[i] is Done,
    decreases trials.len(),
{
    if trials.len() > 0 {
        let front = trials.drop_last();
        assert(forall|i: int| 0 <= i < front.len() ==> front[i] == #[trigger] trials[i]);
        assert(!each_repo_command::is_stop(trials[trials.len() - 1]));
        lemma_nothing_put_off(front);
        assert forall|i: int| 0 <= i < trials.len() implies #[trigger] trials[i] is Done by {
            if i < front.len() {
                assert(front[i] is Done);
            }
        }
    }
}

/// Where running went well, the branch was switched in every repository, one after the other, and
/// then the command was run in every one, and each of these went well.
pub proof fn law_success_means_that_all_was_done<R: EachRunner>(
    repo_names: &Vec<String>,
    each_cmd: &EachCommand,
    i: int,
)
    requires
        0 <= i < repo_names@.len(),
    ensures
        forall|runner: &mut R, r: Result<(), EachRepoExecutionError>| #[trigger]
            call_ensures(each_repo_command::run::<R>, (repo_names, each_cmd, runner), r)
                && r is Ok ==> exists|states: Seq<R>|
                {
                    &&& #[trigger] states.len() == 2 * repo_names@.len() + 1
                    &&& states[0] == *runner
                    &&& states.last() == *final(runner)
                    &&& exists|t: &mut R, name: &str, done: Result<(), Error>| #[trigger]
                        call_ensures(R::perform, (t, EachStep::SwitchRemote, name), done)
                            && done is Ok && *t == states[i] && *final(t) == states[i + 1] && name@
                            == repo_names@[i]@
                    &&& exists|t: &mut R, name: &str, done: Result<(), Error>| #[trigger]
                        call_ensures(R::perform, (t, EachStep::CustomCommand, name), done)
                            && done is Ok && *t == states[repo_names@.len() + i] && *final(t)
                            == states[repo_names@.len() + i + 1] && name@ == repo_names@[i]@
                },
{
    let n = repo_names@.len();
    let names = text::texts(repo_names@);
    let plan = each_repo_command::whole_plan(text::texts(each_cmd.cmd@), names);
    assert forall|runner: &mut R, r: Result<(), EachRepoExecutionError>| #[trigger]
        call_ensures(each_repo_command::run::<R>, (repo_names, each_cmd, runner), r)
            && r is Ok implies exists|states: Seq<R>|
        {
            &&& #[trigger] states.len() == 2 * repo_names@.len() + 1
            &&& states[0] == *runner
            &&& states.last() == *final(runner)
            &&& exists|t: &mut R, name: &str, done: Result<(), Error>| #[trigger]
                call_ensures(R::perform, (t, EachStep::SwitchRemote, name), done)
                    && done is Ok && *t == states[i] && *final(t) == states[i + 1] && name@
                    == repo_names@[i]@
            &&& exists|t: &mut R, name: &str, done: Result<(), Error>| #[trigger]
                call_ensures(R::perform, (t, EachStep::CustomCommand, name), done)
                    && done is Ok && *t == states[repo_names@.len() + i] && *final(t)
                    == states[repo_names@.len() + i + 1] && name@ == repo_names@[i]@
        } by {
        let course = choose|course: each_repo_command::Course<R>| #[trigger]
            each_repo_command::is_course(course, plan.len(), *runner, *final(runner)) && (forall|
                i: int,
            |
                #![trigger course.trials[i]]
                0 <= i < course.trials.len() ==> (course.trials[i] is Done ==> exists|
                    t: &mut R,
                    name: &str,
                    done: Result<(), Error>,
                | #[trigger]
                    call_ensures(R::perform, (t, plan[i].step, name), done) && done is Ok && *t
                        == course.states[i] && *final(t) == course.states[i + 1] && name@
                        == plan[i].repo_name)) && !each_repo_command::is_cut_short(course.trials)
                && each_repo_command::deferred_of(course.trials).len() == 0;
        lemma_nothing_put_off(course.trials);
        assert(course.states.len() == 2 * n + 1);
        assert(names[i] == repo_names@[i]@);
        assert(course.trials[i] is Done);
        assert(course.trials[n + i] is Done);
    }
}

} // verus!
