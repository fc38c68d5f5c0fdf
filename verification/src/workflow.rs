//! What a session decides on its way from the settings to a build.

use crate::cli::{ConfigCommand, RunArgs};
use crate::conanfile::DependencyTopologicalInfo;
use crate::config::{self, FileConfig, FileConfigView};
use crate::error::Error;
use crate::paths::{PathContext, PathStyle};
use crate::text;
use vstd::prelude::*;

verus! {

/// Forgets what tasks are finished, unless the session goes on where the last one stopped or only
/// looks.
pub fn prepare_progress(file_config: &mut FileConfig, cli_args: &RunArgs)
    ensures
        final(file_config)@ == after_start(old(file_config)@, *cli_args),
{
    if !cli_args.is_continue && !cli_args.check_only {
        file_config.clear_progress_data();
    }
}

/// The settings once what tasks are finished is forgotten as far as the session wants it.
pub open spec fn after_start(view: FileConfigView, args: RunArgs) -> FileConfigView {
    if args.is_continue || args.check_only {
        view
    } else {
        FileConfigView { completed_tasks: Map::empty(), ..view }
    }
}

/// What a session does next.
#[derive(Clone, Copy, PartialEq, Eq, Structural, Debug)]
pub enum RunAction {
    /// Bring the repositories up to date.
    MergeBranches,
    /// Find the packages to build once more, to see whether the branches changed them.
    SortAgain,
    /// Install the packages that the repositories require.
    InstallPackages,
    /// Configure, build and install the repositories.
    Build,
    /// Make the compilation databases.
    MakeDatabases,
    /// Publish the compilation databases.
    PublishDatabases,
    /// Merge the solutions.
    MergeSolutions,
    /// Bring the libraries to the executable.
    CopyLibraries,
    /// End the session.
    Finish,
}

/// What became of what a session did.
pub enum RunEvent {
    /// It was done.
    Done,
    /// The packages were found once more; they are the same or not.
    Sorted { same: bool },
    /// It failed.
    Failed(Error),
}

/// How far a session is.
pub struct Session {
    action: RunAction,
    failure: Option<Error>,
}

/// What is left of a session.
pub struct SessionView {
    /// What it does.
    pub action: RunAction,
    /// The first failure, where there was one.
    pub failure: Option<Error>,
}

impl View for Session {
    type V = SessionView;

    closed spec fn view(&self) -> SessionView {
        SessionView { action: self.action, failure: self.failure }
    }
}

/// A session at its start: one that only looks has nothing to do, another one brings the
/// repositories up to date first where that is wanted.
pub open spec fn start_of(args: RunArgs) -> SessionView {
    SessionView {
        action: if args.check_only {
            RunAction::Finish
        } else if args.enable_merge {
            RunAction::MergeBranches
        } else {
            RunAction::InstallPackages
        },
        failure: None,
    }
}

/// The description of a change of the packages by what was merged.
pub open spec fn graph_changed_message() -> Seq<char> {
    "Dependency graph changed after git merge. Please re-run the tool."@
}

/// What follows a step of the build once the branches are right: failures of the build, of the
/// databases and of the solutions end nothing, so that what was built can be looked into.
pub open spec fn after_step(action: RunAction) -> RunAction {
    match action {
        RunAction::Build => RunAction::MakeDatabases,
        RunAction::MakeDatabases => RunAction::PublishDatabases,
        RunAction::PublishDatabases => RunAction::MergeSolutions,
        RunAction::MergeSolutions => RunAction::CopyLibraries,
        _ => RunAction::Finish,
    }
}

/// The action is one whose failure does not end the session at once.
pub open spec fn goes_on(action: RunAction) -> bool {
    action == RunAction::Build || action == RunAction::MakeDatabases || action
        == RunAction::PublishDatabases || action == RunAction::MergeSolutions
}

/// The session after an event.
pub open spec fn is_after(before: SessionView, event: RunEvent, after: SessionView) -> bool {
    match event {
        RunEvent::Failed(e) => {
            &&& after.failure == (if before.failure is Some {
                before.failure
            } else {
                Some(e)
            })
            &&& after.action == (if before.action == RunAction::MergeSolutions || !goes_on(
                before.action,
            ) {
                RunAction::Finish
            } else {
                after_step(before.action)
            })
        },
        RunEvent::Sorted { same: false } => {
            &&& before.failure is Some ==> after.failure == before.failure
            &&& before.failure is None ==> after.failure is Some && after.failure->0.message@
                == graph_changed_message()
            &&& after.action == RunAction::Finish
        },
        _ => {
            &&& after.failure == before.failure
            &&& after.action == match before.action {
                RunAction::MergeBranches => RunAction::SortAgain,
                RunAction::SortAgain => RunAction::InstallPackages,
                RunAction::InstallPackages => RunAction::Build,
                RunAction::MergeSolutions => if before.failure is Some {
                    RunAction::Finish
                } else {
                    RunAction::CopyLibraries
                },
                action => after_step(action),
            }
        },
    }
}

impl Session {
    /// A session at its start.
    pub fn new(cli_args: &RunArgs) -> (r: Self)
        ensures
            r@ == start_of(*cli_args),
    {
        let action = if cli_args.check_only {
            RunAction::Finish
        } else if cli_args.enable_merge {
            RunAction::MergeBranches
        } else {
            RunAction::InstallPackages
        };
        Session { action, failure: None }
    }

    /// What the session does next.
    pub fn action(&self) -> (r: RunAction)
        ensures
            r == self@.action,
    {
        self.action
    }

    /// What the session ends with.
    pub fn outcome(self) -> (r: Result<(), Error>)
        ensures
            match self@.failure {
                Some(e) => r == Err::<(), Error>(e),
                None => r is Ok,
            },
    {
        match self.failure {
            Some(e) => Err(e),
            None => Ok(()),
        }
    }

    /// Takes note of what became of the action.
    pub fn advance(&mut self, event: RunEvent)
        ensures
            is_after(old(self)@, event, final(self)@),
    {
        match event {
            RunEvent::Failed(e) => {
                if self.failure.is_none() {
                    self.failure = Some(e);
                }
                self.action = match self.action {
                    RunAction::Build => RunAction::MakeDatabases,
                    RunAction::MakeDatabases => RunAction::PublishDatabases,
                    RunAction::PublishDatabases => RunAction::MergeSolutions,
                    _ => RunAction::Finish,
                };
            },
            RunEvent::Sorted { same: false } => {
                if self.failure.is_none() {
                    self.failure = Some(
                        Error::new(
                            "Dependency graph changed after git merge. Please re-run the tool.",
                        ),
                    );
                }
                self.action = RunAction::Finish;
            },
            _ => {
                self.action = match self.action {
                    RunAction::MergeBranches => RunAction::SortAgain,
                    RunAction::SortAgain => RunAction::InstallPackages,
                    RunAction::InstallPackages => RunAction::Build,
                    RunAction::Build => RunAction::MakeDatabases,
                    RunAction::MakeDatabases => RunAction::PublishDatabases,
                    RunAction::PublishDatabases => RunAction::MergeSolutions,
                    RunAction::MergeSolutions => if self.failure.is_some() {
                        RunAction::Finish
                    } else {
                        RunAction::CopyLibraries
                    },
                    _ => RunAction::Finish,
                };
            },
        }
    }
}

/// The first failure of a session is what it ends with, whatever comes after it.
pub proof fn law_first_failure_stays(before: SessionView, event: RunEvent, after: SessionView)
    requires
        before.failure is Some,
        is_after(before, event, after),
    ensures
        after.failure == before.failure,
{
}

/// Solutions are merged even where the build failed, and libraries are brought to the executable
/// only where nothing did.
pub proof fn law_solutions_are_merged_after_a_failed_build(
    built: SessionView,
    a: RunEvent,
    made: SessionView,
    b: RunEvent,
    published: SessionView,
    c: RunEvent,
    merging: SessionView,
    d: RunEvent,
    last: SessionView,
)
    requires
        built.action == RunAction::Build,
        is_after(built, a, made),
        is_after(made, b, published),
        is_after(published, c, merging),
        is_after(merging, d, last),
        !(a matches RunEvent::Sorted { same: false }),
        !(b matches RunEvent::Sorted { same: false }),
        !(c matches RunEvent::Sorted { same: false }),
        !(d matches RunEvent::Sorted { same: false }),
    ensures
        made.action == RunAction::MakeDatabases,
        published.action == RunAction::PublishDatabases,
        merging.action == RunAction::MergeSolutions,
        last.action == if last.failure is None {
            RunAction::CopyLibraries
        } else {
            RunAction::Finish
        },
{
}

/// A session that only looks merges nothing and builds nothing, whatever it hears of, and it
/// leaves what tasks are finished as it was.
pub proof fn law_looking_changes_nothing(
    view: FileConfigView,
    args: RunArgs,
    events: Seq<RunEvent>,
    states: Seq<SessionView>,
    k: int,
)
    requires
        args.check_only,
        states.len() == events.len() + 1,
        states[0] == start_of(args),
        forall|i: int|
            0 <= i < events.len() ==> is_after(states[i], #[trigger] events[i], states[i + 1]),
        0 <= k < states.len(),
    ensures
        states[k].action == RunAction::Finish,
        after_start(view, args) == view,
    decreases k,
{
    if k > 0 {
        law_looking_changes_nothing(view, args, events, states, k - 1);
        assert(is_after(states[k - 1], events[k - 1], states[k]));
    }
}

/// The repositories are brought up to date at the start of a session or not at all, and not
/// unless that is wanted.
pub proof fn law_branches_are_merged_on_demand(
    args: RunArgs,
    before: SessionView,
    event: RunEvent,
    after: SessionView,
)
    requires
        is_after(before, event, after),
    ensures
        start_of(args).action == RunAction::MergeBranches <==> args.enable_merge
            && !args.check_only,
        after.action != RunAction::MergeBranches,
{
}

/// The repositories under debug that take part and are needed.
pub open spec fn participating_of(
    view: FileConfigView,
    debug: Seq<Seq<char>>,
    needed: Seq<Seq<char>>,
) -> Seq<Seq<char>>
    decreases debug.len(),
{
    if debug.len() == 0 {
        Seq::empty()
    } else {
        let rest = participating_of(view, debug.drop_last(), needed);
        if needed.contains(debug.last()) && view.is_enabled(debug.last()) {
            rest.push(debug.last())
        } else {
            rest
        }
    }
}

/// The repositories under debug that take part and are needed.
pub fn participating(file_config: &FileConfig, info: &DependencyTopologicalInfo) -> (r: Vec<String>)
    ensures
        text::texts(r@) == participating_of(
            file_config@,
            file_config@.debug_repo_names,
            text::texts(info.need_debug_pkgs@),
        ),
{
    let debug = &file_config.debug_repo_names;
    let ghost all = text::texts(debug@);
    let ghost needed = text::texts(info.need_debug_pkgs@);
    let mut out: Vec<String> = Vec::new();
    for i in 0..debug.len()
        invariant
            debug == &file_config.debug_repo_names,
            all == text::texts(debug@),
            needed == text::texts(info.need_debug_pkgs@),
            text::texts(out@) == participating_of(file_config@, all.take(i as int), needed),
    {
        assert(all.take(i + 1).drop_last() =~= all.take(i as int));
        if text::texts_contain(&info.need_debug_pkgs, debug[i].as_str())
            && file_config.is_dependency_enabled_in_config(debug[i].as_str()) {
            text::push_text(&mut out, debug[i].clone());
        }
    }
    assert(all.take(all.len() as int) =~= all);
    out
}

/// The repositories that do not take part.
pub open spec fn disabled_of(view: FileConfigView, names: Seq<Seq<char>>) -> Seq<Seq<char>>
    decreases names.len(),
{
    if names.len() == 0 {
        Seq::empty()
    } else {
        let rest = disabled_of(view, names.drop_last());
        if view.is_enabled(names.last()) {
            rest
        } else {
            rest.push(names.last())
        }
    }
}

/// Takes those that do not take part from the packages to build, and returns them. The graph keeps
/// them.
pub fn leave_out_disabled(file_config: &FileConfig, info: &mut DependencyTopologicalInfo) -> (r: Vec<
    String,
>)
    ensures
        text::texts(r@) == disabled_of(file_config@, text::texts(old(info).sorted_names@)),
        text::texts(final(info).sorted_names@) == file_config@.enabled_of(
            text::texts(old(info).sorted_names@),
        ),
        final(info).graph == old(info).graph,
        final(info).need_debug_pkgs == old(info).need_debug_pkgs,
{
    let ghost all = text::texts(info.sorted_names@);
    let mut disabled: Vec<String> = Vec::new();
    for i in 0..info.sorted_names.len()
        invariant
            *info == *old(info),
            all == text::texts(info.sorted_names@),
            text::texts(disabled@) == disabled_of(file_config@, all.take(i as int)),
    {
        assert(all.take(i + 1).drop_last() =~= all.take(i as int));
        if !file_config.is_dependency_enabled_in_config(info.sorted_names[i].as_str()) {
            text::push_text(&mut disabled, info.sorted_names[i].clone());
        }
    }
    assert(all.take(all.len() as int) =~= all);
    info.sorted_names = file_config.enabled_names(&info.sorted_names);
    disabled
}

/// The libraries to bring to an executable.
pub struct DllCopyPlan {
    /// The solution of the executable.
    pub target_sln: String,
    /// The binary directories of what it needs.
    pub source_dirs: Vec<String>,
    pub build_type: String,
}

/// The binary directories of repositories.
pub open spec fn binary_dirs(view: FileConfigView, style: char, names: Seq<Seq<char>>) -> Seq<
    Seq<char>,
> {
    names.map_values(
        |n: Seq<char>|
            config::in_repo(style, view.repo_caches[n], view.repo_caches[n].cmake_binary_dir),
    )
}

/// The executable was configured for Visual Studio.
pub open spec fn builds_solution(view: FileConfigView) -> bool {
    let name = view.executable.identification_name;
    view.repo_caches.contains_key(name) && view.uses_visual_studio(name)
}

/// Everything in the list is known but perhaps the executable.
pub open spec fn others_known(view: FileConfigView, names: Seq<Seq<char>>) -> bool {
    forall|i: int|
        0 <= i < names.len() && #[trigger] names[i] != view.executable.identification_name
            ==> view.repo_caches.contains_key(names[i])
}

/// The libraries to bring to the executable: those of all repositories but itself. `None` where it
/// was not configured for Visual Studio.
pub fn copy_dll(style: &PathStyle, file_config: &FileConfig, all_deps: &Vec<String>) -> (r: Result<
    Option<DllCopyPlan>,
    Error,
>)
    requires
        builds_solution(file_config@) ==> others_known(file_config@, text::texts(all_deps@)),
    ensures
        ({
            let view = file_config@;
            let executable = view.executable.identification_name;
            if !view.repo_caches.contains_key(executable) {
                r matches Err(e) && e.message@ == config::unknown_repo_message(executable)
            } else if !view.uses_visual_studio(executable) {
                r matches Ok(None)
            } else {
                match view.solution_fault(executable) {
                    Some(fault) => r matches Err(e) && e.message@ == fault,
                    None => {
                        &&& r matches Ok(Some(plan))
                        &&& plan.target_sln@ == view.solution_of(style@, executable)
                        &&& text::texts(plan.source_dirs@) == binary_dirs(
                            view,
                            style@,
                            config::without_name(text::texts(all_deps@), executable),
                        )
                        &&& plan.build_type@ == view.config
                    },
                }
            }
        }),
{
    let executable = file_config.executable.identification_name.as_str();
    match file_config.is_visual_studio_generator(executable) {
        Ok(true) => {},
        Ok(false) => {
            return Ok(None);
        },
        Err(e) => {
            return Err(e);
        },
    }
    let ghost all = text::texts(all_deps@);
    let ghost view = file_config@;
    let mut source_dirs: Vec<String> = Vec::new();
    assert(text::texts(source_dirs@) =~= binary_dirs(
        view,
        style@,
        config::without_name(all.take(0), executable@),
    ));
    for i in 0..all_deps.len()
        invariant
            all == text::texts(all_deps@),
            view == file_config@,
            executable@ == view.executable.identification_name,
            others_known(view, all),
            text::texts(source_dirs@) == binary_dirs(
                view,
                style@,
                config::without_name(all.take(i as int), executable@),
            ),
    {
        assert(all.take(i + 1).drop_last() =~= all.take(i as int));
        assert(all[i as int] == all_deps@[i as int]@);
        let name = all_deps[i].as_str();
        if !text::same_text(name, executable) {
            match file_config.get_cmake_binary_dir(style, name) {
                Ok(dir) => {
                    text::push_text(&mut source_dirs, dir);
                },
                Err(_) => {},
            }
        }
        assert(text::texts(source_dirs@) =~= binary_dirs(
            view,
            style@,
            config::without_name(all.take(i + 1), executable@),
        ));
    }
    assert(all.take(all.len() as int) =~= all);
    match file_config.get_sln_file_path(style, executable) {
        Ok(target_sln) => Ok(
            Some(DllCopyPlan { target_sln, source_dirs, build_type: file_config.config.clone() }),
        ),
        Err(e) => Err(e),
    }
}

/// Where the compilation database of a repository comes from and goes to.
pub struct PublishDirs {
    pub repo_dir: String,
    pub binary_dir: String,
}

/// Where the compilation database of a repository comes from and goes to. `None` where there is
/// none to publish: the repository was configured for Visual Studio and none is to be made.
pub fn copy_compile_commands(style: &PathStyle, file_config: &FileConfig, repo_name: &str) -> (r:
    Result<Option<PublishDirs>, Error>)
    ensures
        ({
            let view = file_config@;
            let cache = view.repo_caches[repo_name@];
            if !view.repo_caches.contains_key(repo_name@) {
                r matches Err(e) && e.message@ == config::unknown_repo_message(repo_name@)
            } else if view.uses_visual_studio(repo_name@) && !view.compile_commands_enabled {
                r matches Ok(None)
            } else {
                &&& r matches Ok(Some(dirs))
                &&& dirs.repo_dir@ == cache.repo_dir
                &&& dirs.binary_dir@ == config::in_repo(style@, cache, cache.cmake_binary_dir)
            }
        }),
{
    match file_config.is_visual_studio_generator(repo_name) {
        Ok(visual_studio) => {
            if visual_studio && !file_config.compile_commands_config.enabled {
                return Ok(None);
            }
        },
        Err(e) => {
            return Err(e);
        },
    }
    let repo_dir = match file_config.get_repo_dir(repo_name) {
        Ok(dir) => dir,
        Err(e) => {
            return Err(e);
        },
    };
    match file_config.get_cmake_binary_dir(style, repo_name) {
        Ok(binary_dir) => Ok(Some(PublishDirs { repo_dir, binary_dir })),
        Err(e) => Err(e),
    }
}

/// The solutions to merge into that of the executable.
pub struct SolutionMergePlan {
    /// The solution of the executable.
    pub target_sln: String,
    /// The solutions to merge into it.
    pub source_slns: Vec<String>,
    /// The repositories they belong to.
    pub merged_names: Vec<String>,
    /// The repositories that have none.
    pub skipped_names: Vec<String>,
}

/// Those of the repositories that were configured for Visual Studio, or those that were not.
pub open spec fn with_solutions(
    view: FileConfigView,
    names: Seq<Seq<char>>,
    visual_studio: bool,
) -> Seq<Seq<char>>
    decreases names.len(),
{
    if names.len() == 0 {
        Seq::empty()
    } else {
        let rest = with_solutions(view, names.drop_last(), visual_studio);
        if view.uses_visual_studio(names.last()) == visual_studio {
            rest.push(names.last())
        } else {
            rest
        }
    }
}

/// The first repository from `from` on without a solution, or the number of repositories.
pub open spec fn first_without_solution(
    view: FileConfigView,
    names: Seq<Seq<char>>,
    from: int,
) -> int
    decreases names.len() - from,
{
    if from >= names.len() || view.solution_fault(names[from]) is Some {
        from
    } else {
        first_without_solution(view, names, from + 1)
    }
}

/// Why the solutions cannot be merged, where they cannot.
pub open spec fn merge_fault(view: FileConfigView, names: Seq<Seq<char>>) -> Option<Seq<char>> {
    let executable = view.executable.identification_name;
    let others = config::without_name(names, executable);
    let unknown = view.first_unknown(others, 0);
    let merged = with_solutions(view, others, true);
    let bad = first_without_solution(view, merged, 0);
    if view.solution_fault(executable) is Some {
        view.solution_fault(executable)
    } else if unknown < others.len() {
        Some(config::unknown_repo_message(others[unknown]))
    } else if bad < merged.len() {
        view.solution_fault(merged[bad])
    } else {
        None
    }
}

fn split_by_generator(file_config: &FileConfig, names: &Vec<String>) -> (r: Result<
    (Vec<String>, Vec<String>),
    Error,
>)
    ensures
        ({
            let view = file_config@;
            let others = config::without_name(
                text::texts(names@),
                view.executable.identification_name,
            );
            let unknown = view.first_unknown(others, 0);
            if unknown < others.len() {
                r matches Err(e) && e.message@ == config::unknown_repo_message(others[unknown])
            } else {
                r matches Ok((merged, skipped)) && text::texts(merged@) == with_solutions(
                    view,
                    others,
                    true,
                ) && text::texts(skipped@) == with_solutions(view, others, false)
            }
        }),
{
    let ghost view = file_config@;
    let others = config::remove_name(
        names,
        file_config.executable.identification_name.as_str(),
    );
    let ghost all = text::texts(others@);
    let mut merged: Vec<String> = Vec::new();
    let mut skipped: Vec<String> = Vec::new();
    for i in 0..others.len()
        invariant
            view == file_config@,
            all == text::texts(others@),
            all == config::without_name(
                text::texts(names@),
                view.executable.identification_name,
            ),
            view.first_unknown(all, 0) == view.first_unknown(all, i as int),
            text::texts(merged@) == with_solutions(view, all.take(i as int), true),
            text::texts(skipped@) == with_solutions(view, all.take(i as int), false),
    {
        assert(all.take(i + 1).drop_last() =~= all.take(i as int));
        assert(all[i as int] == others@[i as int]@);
        match file_config.is_visual_studio_generator(others[i].as_str()) {
            Ok(true) => {
                text::push_text(&mut merged, others[i].clone());
            },
            Ok(false) => {
                text::push_text(&mut skipped, others[i].clone());
            },
            Err(e) => {
                return Err(e);
            },
        }
    }
    assert(all.take(all.len() as int) =~= all);
    Ok((merged, skipped))
}

fn solutions_of(style: &PathStyle, file_config: &FileConfig, names: &Vec<String>) -> (r: Result<
    Vec<String>,
    Error,
>)
    ensures
        ({
            let view = file_config@;
            let all = text::texts(names@);
            let bad = first_without_solution(view, all, 0);
            if bad < all.len() {
                r matches Err(e) && Some(e.message@) == view.solution_fault(all[bad])
            } else {
                r matches Ok(list) && text::texts(list@) == all.map_values(
                    |n: Seq<char>| view.solution_of(style@, n),
                )
            }
        }),
{
    let ghost view = file_config@;
    let ghost all = text::texts(names@);
    let ghost f = |n: Seq<char>| view.solution_of(style@, n);
    let mut out: Vec<String> = Vec::new();
    for i in 0..names.len()
        invariant
            view == file_config@,
            all == text::texts(names@),
            f == (|n: Seq<char>| view.solution_of(style@, n)),
            first_without_solution(view, all, 0) == first_without_solution(view, all, i as int),
            text::texts(out@) == all.take(i as int).map_values(f),
    {
        assert(all[i as int] == names@[i as int]@);
        match file_config.get_sln_file_path(style, names[i].as_str()) {
            Ok(path) => {
                text::push_text(&mut out, path);
            },
            Err(e) => {
                return Err(e);
            },
        }
        assert(all.take(i + 1).map_values(f) =~= all.take(i as int).map_values(f).push(
            f(all[i as int]),
        ));
    }
    assert(all.take(all.len() as int) =~= all);
    Ok(out)
}

/// The solutions to merge into that of the executable: those of the other repositories that were
/// configured for Visual Studio. `None` where the executable was not.
pub fn merge_sln(style: &PathStyle, file_config: &FileConfig, need_debug_pkgs: &Vec<String>) -> (r:
    Result<Option<SolutionMergePlan>, Error>)
    ensures
        ({
            let view = file_config@;
            let executable = view.executable.identification_name;
            let names = text::texts(need_debug_pkgs@);
            let others = config::without_name(names, executable);
            let merged = with_solutions(view, others, true);
            if !view.repo_caches.contains_key(executable) {
                r matches Err(e) && e.message@ == config::unknown_repo_message(executable)
            } else if !view.uses_visual_studio(executable) {
                r matches Ok(None)
            } else {
                match merge_fault(view, names) {
                    Some(fault) => r matches Err(e) && e.message@ == fault,
                    None => {
                        &&& r matches Ok(Some(plan))
                        &&& plan.target_sln@ == view.solution_of(style@, executable)
                        &&& text::texts(plan.source_slns@) == merged.map_values(
                            |n: Seq<char>| view.solution_of(style@, n),
                        )
                        &&& text::texts(plan.merged_names@) == merged
                        &&& text::texts(plan.skipped_names@) == with_solutions(view, others, false)
                    },
                }
            }
        }),
{
    let executable = file_config.executable.identification_name.as_str();
    match file_config.is_visual_studio_generator(executable) {
        Ok(true) => {},
        Ok(false) => {
            return Ok(None);
        },
        Err(e) => {
            return Err(e);
        },
    }
    let target_sln = match file_config.get_sln_file_path(style, executable) {
        Ok(path) => path,
        Err(e) => {
            return Err(e);
        },
    };
    let (merged_names, skipped_names) = match split_by_generator(file_config, need_debug_pkgs) {
        Ok(split) => split,
        Err(e) => {
            return Err(e);
        },
    };
    match solutions_of(style, file_config, &merged_names) {
        Ok(source_slns) => Ok(
            Some(SolutionMergePlan { target_sln, source_slns, merged_names, skipped_names }),
        ),
        Err(e) => Err(e),
    }
}

/// The refusal of a change that changes nothing.
pub open spec fn no_change_message() -> Seq<char> {
    "config command requires either --add/--remove or --build-type"@
}

/// Whether a change of the settings says what to change.
pub fn check_config_command(config_cmd: &ConfigCommand) -> (r: Result<(), Error>)
    ensures
        ({
            let says = config_cmd.add@.len() > 0 || config_cmd.remove@.len() > 0
                || config_cmd.build_type is Some;
            match r {
                Ok(_) => says,
                Err(e) => !says && e.message@ == no_change_message(),
            }
        }),
{
    if config_cmd.add.len() == 0 && config_cmd.remove.len() == 0
        && config_cmd.build_type.is_none() {
        return Err(Error::new("config command requires either --add/--remove or --build-type"));
    }
    Ok(())
}

/// The first directory of a change that belongs to no repository; those to add come first.
pub open spec fn unowned_in(view: FileConfigView, context: PathContext, cmd: ConfigCommand) -> Option<
    Seq<char>,
> {
    let add = view.owners_of(context, text::texts(cmd.add@));
    let remove = view.owners_of(context, text::texts(cmd.remove@));
    let n = config::first_unowned(add, 0);
    let m = config::first_unowned(remove, 0);
    if n < add.len() {
        Some(cmd.add@[n]@)
    } else if m < remove.len() {
        Some(cmd.remove@[m]@)
    } else {
        None
    }
}

/// The repositories under debug after a change, as far as it went.
pub open spec fn changed_names(view: FileConfigView, context: PathContext, cmd: ConfigCommand) -> Seq<
    Seq<char>,
> {
    let add = view.owners_of(context, text::texts(cmd.add@));
    let remove = view.owners_of(context, text::texts(cmd.remove@));
    let n = config::first_unowned(add, 0);
    let m = config::first_unowned(remove, 0);
    let added = config::with_names(view.debug_repo_names, config::owner_names(add, n));
    if n < add.len() {
        added
    } else {
        config::without_names(added, config::owner_names(remove, m))
    }
}

/// The build type after a change that got to it.
pub open spec fn changed_type(view: FileConfigView, build_type: Option<String>) -> Seq<char> {
    match build_type {
        Some(t) => if config::is_build_type(t@) {
            t@
        } else if view.config.len() == 0 {
            "RelWithDebInfo"@
        } else {
            view.config
        },
        None => view.config,
    }
}

/// Changes the settings: puts repositories under debug, takes some from there and sets the build
/// type. What fails ends it.
pub fn apply_config_command(
    context: &PathContext,
    file_config: &mut FileConfig,
    config_cmd: &ConfigCommand,
) -> (r: Result<(), Error>)
    ensures
        ({
            let before = old(file_config)@;
            let names = changed_names(before, *context, *config_cmd);
            match unowned_in(before, *context, *config_cmd) {
                Some(dir) => {
                    &&& r matches Err(e)
                    &&& e.message@ == config::no_owner_message(context.absolute(dir))
                    &&& final(file_config)@ == (FileConfigView {
                        debug_repo_names: names,
                        ..before
                    })
                },
                None => {
                    &&& final(file_config)@ == (FileConfigView {
                        debug_repo_names: names,
                        config: changed_type(before, config_cmd.build_type),
                        ..before
                    })
                    &&& match config_cmd.build_type {
                        Some(t) => if config::is_build_type(t@) {
                            r is Ok
                        } else {
                            r matches Err(e) && e.message@ == config::bad_build_type_message(t@)
                        },
                        None => r is Ok,
                    }
                },
            }
        }),
{
    match file_config.apply_config_add(context, &config_cmd.add) {
        Ok(_) => {},
        Err(e) => {
            return Err(e);
        },
    }
    match file_config.apply_config_remove(context, &config_cmd.remove) {
        Ok(_) => {},
        Err(e) => {
            return Err(e);
        },
    }
    match &config_cmd.build_type {
        Some(build_type) => file_config.set_build_type(build_type.as_str()),
        None => Ok(()),
    }
}

/// Every package to build takes part or does not, and those that do keep their order.
pub proof fn law_packages_take_part_or_do_not(view: FileConfigView, names: Seq<Seq<char>>)
    ensures
        view.enabled_of(names).len() + disabled_of(view, names).len() == names.len(),
        forall|n: Seq<char>| #[trigger] view.enabled_of(names).contains(n) ==> view.is_enabled(n),
    decreases names.len(),
{
    if names.len() > 0 {
        law_packages_take_part_or_do_not(view, names.drop_last());
        let rest = view.enabled_of(names.drop_last());
        let after = view.enabled_of(names);
        assert forall|n: Seq<char>| #[trigger] after.contains(n) implies view.is_enabled(n) by {
            let i = after.index_of(n);
            if i < rest.len() {
                assert(rest[i] == n);
                assert(rest.contains(n));
            }
        }
    }
}

/// A session that goes on where the last one stopped finds every task finished that was, and a
/// session that starts anew finds none.
pub proof fn law_progress_is_kept_or_forgotten(
    view: FileConfigView,
    args: RunArgs,
    repo_name: Seq<char>,
    task_id: Seq<char>,
)
    ensures
        args.is_continue ==> after_start(view, args).is_finished(repo_name, task_id)
            == view.is_finished(repo_name, task_id),
        !args.is_continue && !args.check_only ==> !after_start(view, args).is_finished(
            repo_name,
            task_id,
        ),
{
}

proof fn lemma_contains_last(names: Seq<Seq<char>>, name: Seq<char>)
    requires
        names.len() > 0,
    ensures
        names.contains(name) <==> names.drop_last().contains(name) || names.last() == name,
{
    let rest = names.drop_last();
    if rest.contains(name) {
        let i = choose|i: int| 0 <= i < rest.len() && rest[i] == name;
        assert(names[i] == name);
    }
    if names.contains(name) {
        let i = choose|i: int| 0 <= i < names.len() && names[i] == name;
        assert(i < rest.len() ==> rest[i] == name);
    }
    if names.last() == name {
        assert(names[names.len() - 1] == name);
    }
}

proof fn lemma_with_solutions(
    view: FileConfigView,
    names: Seq<Seq<char>>,
    visual_studio: bool,
    name: Seq<char>,
)
    ensures
        with_solutions(view, names, visual_studio).contains(name) <==> names.contains(name)
            && view.uses_visual_studio(name) == visual_studio,
    decreases names.len(),
{
    if names.len() > 0 {
        let rest = with_solutions(view, names.drop_last(), visual_studio);
        lemma_with_solutions(view, names.drop_last(), visual_studio, name);
        lemma_contains_last(names, name);
        if view.uses_visual_studio(names.last()) == visual_studio {
            let all = rest.push(names.last());
            assert(all.drop_last() =~= rest);
            lemma_contains_last(all, name);
        }
    }
}

/// Every repository is either merged into the solution of the executable or passed over: merged
/// just where it was configured for Visual Studio.
pub proof fn law_only_solutions_are_merged(
    view: FileConfigView,
    names: Seq<Seq<char>>,
    name: Seq<char>,
)
    requires
        names.contains(name),
    ensures
        with_solutions(view, names, true).contains(name) <==> view.uses_visual_studio(name),
        with_solutions(view, names, false).contains(name) <==> !view.uses_visual_studio(name),
{
    lemma_with_solutions(view, names, true, name);
    lemma_with_solutions(view, names, false, name);
}

} // verus!
