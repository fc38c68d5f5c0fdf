//! Running something in each repository, with failures put off where the user wants to go on.

use crate::cli::EachCommand;
use crate::config::{self, FileConfig, FileConfigView, RepoPath};
use crate::error::{self, Error};
use crate::paths::PathContext;
use crate::text;
use vstd::prelude::*;

verus! {

/// What went wrong in the repositories.
#[derive(Debug)]
pub struct EachRepoExecutionError {
    /// The description of all of it.
    pub detail: String,
    /// The failures that were put off.
    pub deferred_errors: Vec<Error>,
    /// The failure that ended it, if one did.
    pub interrupted: Option<Error>,
}

/// The failures that were put off, one to a line.
pub open spec fn deferred_lines(errors: Seq<Error>) -> Seq<char>
    decreases errors.len(),
{
    if errors.len() == 0 {
        Seq::empty()
    } else {
        deferred_lines(errors.drop_last()) + "\n  "@ + text::decimal_of(errors.len()) + ". "@
            + errors.last().message@
    }
}

/// The description of what went wrong.
pub open spec fn execution_detail(errors: Seq<Error>, interrupted: Option<Error>) -> Seq<char> {
    let put_off = if errors.len() > 0 {
        "each command recorded "@ + text::decimal_of(errors.len()) + " deferred error(s):"@
            + deferred_lines(errors)
    } else {
        Seq::empty()
    };
    match interrupted {
        Some(error) => put_off + (if errors.len() > 0 {
            "\n\n"@
        } else {
            Seq::empty()
        }) + "each command interrupted at repo '"@ + error.message@ + "'"@,
        None => put_off,
    }
}

/// These failures make up the error.
pub open spec fn is_error_of(
    error: EachRepoExecutionError,
    deferred: Seq<Error>,
    interrupted: Option<Error>,
) -> bool {
    &&& error.deferred_errors@ == deferred
    &&& error.interrupted == interrupted
    &&& error.detail@ == execution_detail(deferred, interrupted)
}

impl EachRepoExecutionError {
    /// The error made up of these failures.
    pub fn new(deferred_errors: Vec<Error>, interrupted: Option<Error>) -> (r: Self)
        ensures
            is_error_of(r, deferred_errors@, interrupted),
    {
        let ghost errors = deferred_errors@;
        let mut detail = String::new();
        assert(detail@ =~= Seq::<char>::empty());
        let count = deferred_errors.len();
        if count > 0 {
            let mut lines = String::new();
            assert(lines@ =~= deferred_lines(errors.take(0)));
            for i in 0..count
                invariant
                    errors == deferred_errors@,
                    count == errors.len(),
                    lines@ == deferred_lines(errors.take(i as int)),
            {
                assert(errors.take(i + 1).drop_last() =~= errors.take(i as int));
                let number = text::decimal(i + 1);
                lines.append("\n  ");
                lines.append(number.as_str());
                lines.append(". ");
                lines.append(deferred_errors[i].message.as_str());
            }
            assert(errors.take(count as int) =~= errors);
            let number = text::decimal(count);
            detail = "each command recorded ".to_owned();
            detail.append(number.as_str());
            detail.append(" deferred error(s):");
            detail.append(lines.as_str());
        }
        if let Some(error) = &interrupted {
            if count > 0 {
                detail.append("\n\n");
            } else {
                assert(detail@ + Seq::<char>::empty() =~= detail@);
            }
            detail.append("each command interrupted at repo '");
            detail.append(error.message.as_str());
            detail.append("'");
        }
        EachRepoExecutionError { detail, deferred_errors, interrupted }
    }

    /// The description of what went wrong.
    pub fn message(&self) -> (r: String)
        ensures
            r@ == self.detail@,
    {
        self.detail.clone()
    }
}

/// The failure to learn whether to go on.
pub open spec fn no_answer_message(repo_name: Seq<char>, action: Seq<char>) -> Seq<char> {
    "failed to get continue confirmation after repo '"@ + repo_name
        + "' error while running "@ + action
}

/// `error` says that it was not to be learnt whether to go on, because of `cause`.
pub open spec fn is_no_answer(
    error: Error,
    cause: Error,
    repo_name: Seq<char>,
    action: Seq<char>,
) -> bool {
    error::is_in_context(error, cause, no_answer_message(repo_name, action))
}

fn no_answer(cause: Error, repo_name: &str, action: &str) -> (r: Error)
    ensures
        is_no_answer(r, cause, repo_name@, action@),
{
    let mut message = "failed to get continue confirmation after repo '".to_owned();
    message.append(repo_name);
    message.append("' error while running ");
    message.append(action);
    cause.with_context(message.as_str())
}

/// What follows where something failed in a repository and this was the answer to whether to go
/// on: the failure is put off, or it is what is left; or that there was no answer.
pub open spec fn follows(
    before: Seq<Error>,
    after: Seq<Error>,
    repo_name: Seq<char>,
    action: Seq<char>,
    source: Error,
    answer: Result<bool, Error>,
    r: Result<(), Error>,
) -> bool {
    match answer {
        Ok(true) => r is Ok && after == before.push(source),
        Ok(false) => r == Err::<(), Error>(source) && after == before,
        Err(cause) => r matches Err(e) && is_no_answer(e, cause, repo_name, action) && after
            == before,
    }
}

/// Puts a failure off or not, by the answer to whether to go on.
fn settle(
    deferred_errors: &mut Vec<Error>,
    repo_name: &str,
    action: &str,
    source: Error,
    answer: Result<bool, Error>,
) -> (r: Result<(), Error>)
    ensures
        follows(
            old(deferred_errors)@,
            final(deferred_errors)@,
            repo_name@,
            action@,
            source,
            answer,
            r,
        ),
{
    match answer {
        Ok(true) => {
            deferred_errors.push(source);
            Ok(())
        },
        Ok(false) => Err(source),
        Err(cause) => Err(no_answer(cause, repo_name, action)),
    }
}

/// Does something in a repository. Where it fails, and only there, asks whether to go on: then the
/// failure is put off, and otherwise it is the answer.
pub fn run_or_prompt_continue_with_confirm<
    F: FnOnce() -> Result<(), Error>,
    C: FnOnce(&Error) -> Result<bool, Error>,
>(
    deferred_errors: &mut Vec<Error>,
    repo_name: &str,
    action: &str,
    op: F,
    confirm_continue: C,
) -> (r: Result<(), Error>)
    requires
        call_requires(op, ()),
        forall|e: Error|
            #![trigger call_ensures(op, (), Err::<(), Error>(e))]
            call_ensures(op, (), Err::<(), Error>(e)) ==> call_requires(confirm_continue, (&e,)),
    ensures
        exists|done: Result<(), Error>| #[trigger]
            call_ensures(op, (), done) && match done {
                Ok(_) => r is Ok && final(deferred_errors)@ == old(deferred_errors)@,
                Err(source) => exists|answer: Result<bool, Error>| #[trigger]
                    call_ensures(confirm_continue, (&source,), answer) && follows(
                        old(deferred_errors)@,
                        final(deferred_errors)@,
                        repo_name@,
                        action@,
                        source,
                        answer,
                        r,
                    ),
            },
{
    let source = match op() {
        Ok(_) => {
            return Ok(());
        },
        Err(source) => source,
    };
    let answer = confirm_continue(&source);
    settle(deferred_errors, repo_name, action, source, answer)
}

/// What is done in each repository.
#[derive(Clone, Copy, PartialEq, Eq, Structural, Debug)]
pub enum EachStep {
    /// Switch to the branch.
    SwitchRemote,
    /// Run the program.
    CustomCommand,
}

/// Does what is to be done in the repositories, and asks the user whether to go on.
pub trait EachRunner {
    /// Does a step in a repository.
    fn perform(&mut self, step: EachStep, repo_name: &str) -> (r: Result<(), Error>);

    /// Whether to go on after a failure in a repository.
    fn confirm_continue(&mut self, repo_name: &str, action: &str, error: &Error) -> (r: Result<
        bool,
        Error,
    >);
}

/// A step to be done in a repository, and what it is called.
pub struct PlannedStep {
    pub step: EachStep,
    pub repo_name: Seq<char>,
    pub action: Seq<char>,
}

/// The step in each repository, in their order.
pub open spec fn plan_of(
    step: EachStep,
    action: Seq<char>,
    repo_names: Seq<Seq<char>>,
) -> Seq<PlannedStep> {
    Seq::new(
        repo_names.len(),
        |i: int| PlannedStep { step, repo_name: repo_names[i], action },
    )
}

/// What came of a step in a repository.
pub enum Trial {
    /// It was done, and nobody was asked.
    Done,
    /// It failed, and this was the answer to whether to go on.
    Failed(Error, Result<bool, Error>),
}

/// What a trial leaves: the failures that were put off, and the answer.
pub open spec fn comes_of(
    trial: Trial,
    before: Seq<Error>,
    after: Seq<Error>,
    repo_name: Seq<char>,
    action: Seq<char>,
    r: Result<(), Error>,
) -> bool {
    match trial {
        Trial::Done => r is Ok && after == before,
        Trial::Failed(source, answer) => follows(
            before,
            after,
            repo_name,
            action,
            source,
            answer,
            r,
        ),
    }
}

/// Nothing is done after this.
pub open spec fn is_stop(trial: Trial) -> bool {
    trial matches Trial::Failed(_, answer) && answer != Ok::<bool, Error>(true)
}

/// `error` is what ended it with this trial.
pub open spec fn is_stopped_by(
    error: Error,
    trial: Trial,
    repo_name: Seq<char>,
    action: Seq<char>,
) -> bool {
    trial matches Trial::Failed(source, answer) && match answer {
        Ok(_) => error == source,
        Err(cause) => is_no_answer(error, cause, repo_name, action),
    }
}

/// The failures that were put off.
pub open spec fn deferred_of(trials: Seq<Trial>) -> Seq<Error>
    decreases trials.len(),
{
    if trials.len() == 0 {
        Seq::empty()
    } else {
        let before = deferred_of(trials.drop_last());
        match trials.last() {
            Trial::Failed(source, Ok(true)) => before.push(source),
            _ => before,
        }
    }
}

/// The trials end with a stop.
pub open spec fn is_cut_short(trials: Seq<Trial>) -> bool {
    trials.len() > 0 && is_stop(trials.last())
}

/// What came of some steps.
pub ghost struct Course<R> {
    /// What came of each step that was tried.
    pub trials: Seq<Trial>,
    /// The runner before each of them, and after the last.
    pub states: Seq<R>,
}

/// Of `n` steps all were tried in turn, or those up to the first stop.
pub open spec fn is_course<R>(course: Course<R>, n: nat, before: R, after: R) -> bool {
    let trials = course.trials;
    &&& trials.len() <= n
    &&& !is_cut_short(trials) ==> trials.len() == n
    &&& forall|i: int| 0 <= i < trials.len() - 1 ==> !is_stop(#[trigger] trials[i])
    &&& course.states.len() == trials.len() + 1
    &&& course.states[0] == before
    &&& course.states.last() == after
}

/// What is left where the trials ended with a stop.
pub open spec fn is_interruption(
    error: EachRepoExecutionError,
    before: Seq<Error>,
    plan: Seq<PlannedStep>,
    trials: Seq<Trial>,
) -> bool {
    &&& error.interrupted matches Some(e) && is_stopped_by(
        e,
        trials.last(),
        plan[trials.len() - 1].repo_name,
        plan[trials.len() - 1].action,
    )
    &&& is_error_of(error, before + deferred_of(trials), error.interrupted)
}

proof fn lemma_deferred_together(first: Seq<Trial>, second: Seq<Trial>)
    ensures
        deferred_of(first + second) == deferred_of(first) + deferred_of(second),
    decreases second.len(),
{
    if second.len() == 0 {
        assert(first + second =~= first);
        assert(deferred_of(first) + deferred_of(second) =~= deferred_of(first));
    } else {
        lemma_deferred_together(first, second.drop_last());
        assert((first + second).drop_last() =~= first + second.drop_last());
        assert(deferred_of(first + second) =~= deferred_of(first) + deferred_of(second));
    }
}

/// Does a step in a repository, once. Where it fails, and only there, asks whether to go on: then
/// the failure is put off, and otherwise it is the answer. What came of it is the other answer.
pub fn run_or_prompt_continue<R: EachRunner>(
    deferred_errors: &mut Vec<Error>,
    repo_name: &str,
    step: EachStep,
    action: &str,
    runner: &mut R,
) -> (r: (Result<(), Error>, Ghost<Trial>))
    ensures
        comes_of(
            r.1@,
            old(deferred_errors)@,
            final(deferred_errors)@,
            repo_name@,
            action@,
            r.0,
        ),
        match r.1@ {
            Trial::Done => exists|t: &mut R, name: &str, done: Result<(), Error>| #[trigger]
                call_ensures(R::perform, (t, step, name), done) && done is Ok && *t == *old(runner)
                    && *final(t) == *final(runner) && name@ == repo_name@,
            Trial::Failed(source, answer) => exists|
                t: &mut R,
                name: &str,
                u: &mut R,
                asked: &str,
                shown: &str,
            |
                #![trigger
                    call_ensures(R::perform, (t, step, name), Err::<(), Error>(source)),
                    call_ensures(R::confirm_continue, (u, asked, shown, &source), answer)]
                call_ensures(R::perform, (t, step, name), Err::<(), Error>(source))
                    && call_ensures(R::confirm_continue, (u, asked, shown, &source), answer)
                    && *t == *old(runner) && *u == *final(t) && *final(u) == *final(runner) && name@ == repo_name@
                    && asked@ == repo_name@ && shown@ == action@,
        },
{
    let done = runner.perform(step, repo_name);
    match done {
        Ok(_) => (Ok(()), Ghost(Trial::Done)),
        Err(source) => {
            let answer = runner.confirm_continue(repo_name, action, &source);
            let ghost trial = Trial::Failed(source, answer);
            (settle(deferred_errors, repo_name, action, source, answer), Ghost(trial))
        },
    }
}

/// Does a step in each repository in turn, once in each, until one stops it. Failures are put off
/// where the user wants to go on; otherwise they end it, and the answer holds them with those put
/// off so far. What came of the steps is the other answer.
pub fn run_repo_command<R: EachRunner>(
    repo_names: &Vec<String>,
    deferred_errors: &mut Vec<Error>,
    step: EachStep,
    action: &str,
    runner: &mut R,
) -> (r: (Result<(), EachRepoExecutionError>, Ghost<Course<R>>))
    ensures
        ({
            let plan = plan_of(step, action@, text::texts(repo_names@));
            let course = r.1@;
            &&& is_course(course, plan.len(), *old(runner), *final(runner))
            &&& forall|i: int|
                #![trigger course.trials[i]]
                0 <= i < course.trials.len() ==> match course.trials[i] {
                    Trial::Done => exists|t: &mut R, name: &str, done: Result<(), Error>| #[trigger]
                        call_ensures(R::perform, (t, plan[i].step, name), done) && done is Ok && *t
                            == course.states[i]
                            && *final(t) == course.states[i + 1] && name@ == plan[i].repo_name,
                    Trial::Failed(source, answer) => exists|
                        t: &mut R,
                        name: &str,
                        u: &mut R,
                        asked: &str,
                        shown: &str,
                    |
                        #![trigger
                            call_ensures(R::perform, (t, plan[i].step, name), Err::<(), Error>(source)),
                            call_ensures(R::confirm_continue, (u, asked, shown, &source), answer)]
                        call_ensures(R::perform, (t, plan[i].step, name), Err::<(), Error>(source))
                            && call_ensures(R::confirm_continue, (u, asked, shown, &source), answer)
                            && *t == course.states[i] && *u == *final(t) && *final(u)
                            == course.states[i + 1] && name@ == plan[i].repo_name
                            && asked@ == plan[i].repo_name && shown@ == plan[i].action,
                }
            &&& if is_cut_short(course.trials) {
                r.0 matches Err(error) && is_interruption(
                    error,
                    old(deferred_errors)@,
                    plan,
                    course.trials,
                ) && final(deferred_errors)@ == Seq::<Error>::empty()
            } else {
                r.0 is Ok && final(deferred_errors)@ == old(deferred_errors)@ + deferred_of(
                    course.trials,
                )
            }
        }),
{
    let ghost plan = plan_of(step, action@, text::texts(repo_names@));
    let ghost start = deferred_errors@;
    let ghost mut course = Course { trials: Seq::empty(), states: seq![*runner] };
    assert(start + deferred_of(course.trials) =~= start);
    for i in 0..repo_names.len()
        invariant
            plan == plan_of(step, action@, text::texts(repo_names@)),
            start == old(deferred_errors)@,
            course.trials.len() == i,
            course.states.len() == i + 1,
            course.states[0] == *old(runner),
            course.states.last() == *runner,
            forall|k: int| 0 <= k < i ==> !is_stop(#[trigger] course.trials[k]),
            deferred_errors@ == start + deferred_of(course.trials),
            forall|i: int|
                #![trigger course.trials[i]]
                0 <= i < course.trials.len() ==> match course.trials[i] {
                    Trial::Done => exists|t: &mut R, name: &str, done: Result<(), Error>| #[trigger]
                        call_ensures(R::perform, (t, plan[i].step, name), done) && done is Ok && *t
                            == course.states[i]
                            && *final(t) == course.states[i + 1] && name@ == plan[i].repo_name,
                    Trial::Failed(source, answer) => exists|
                        t: &mut R,
                        name: &str,
                        u: &mut R,
                        asked: &str,
                        shown: &str,
                    |
                        #![trigger
                            call_ensures(R::perform, (t, plan[i].step, name), Err::<(), Error>(source)),
                            call_ensures(R::confirm_continue, (u, asked, shown, &source), answer)]
                        call_ensures(R::perform, (t, plan[i].step, name), Err::<(), Error>(source))
                            && call_ensures(R::confirm_continue, (u, asked, shown, &source), answer)
                            && *t == course.states[i] && *u == *final(t) && *final(u)
                            == course.states[i + 1] && name@ == plan[i].repo_name
                            && asked@ == plan[i].repo_name && shown@ == plan[i].action,
                },
    {
        let ghost before = *runner;
        let ghost held = deferred_errors@;
        let (ended, Ghost(trial)) = run_or_prompt_continue(
            deferred_errors,
            repo_names[i].as_str(),
            step,
            action,
            runner,
        );
        proof {
            let more = Course {
                trials: course.trials.push(trial),
                states: course.states.push(*runner),
            };
            assert(more.trials.drop_last() =~= course.trials);
            assert(ended is Ok ==> deferred_errors@ =~= start + deferred_of(more.trials));
            assert forall|k: int| 0 <= k < i implies !is_stop(#[trigger] more.trials[k]) by {
                assert(more.trials[k] == course.trials[k]);
            }
            assert forall|i: int|
                #![trigger more.trials[i]]
                0 <= i < more.trials.len() implies match more.trials[i] {
                    Trial::Done => exists|t: &mut R, name: &str, done: Result<(), Error>| #[trigger]
                        call_ensures(R::perform, (t, plan[i].step, name), done) && done is Ok && *t
                            == more.states[i]
                            && *final(t) == more.states[i + 1] && name@ == plan[i].repo_name,
                    Trial::Failed(source, answer) => exists|
                        t: &mut R,
                        name: &str,
                        u: &mut R,
                        asked: &str,
                        shown: &str,
                    |
                        #![trigger
                            call_ensures(R::perform, (t, plan[i].step, name), Err::<(), Error>(source)),
                            call_ensures(R::confirm_continue, (u, asked, shown, &source), answer)]
                        call_ensures(R::perform, (t, plan[i].step, name), Err::<(), Error>(source))
                            && call_ensures(R::confirm_continue, (u, asked, shown, &source), answer)
                            && *t == more.states[i] && *u == *final(t) && *final(u)
                            == more.states[i + 1] && name@ == plan[i].repo_name
                            && asked@ == plan[i].repo_name && shown@ == plan[i].action,
                } by {
                if i < course.trials.len() {
                    assert(more.trials[i] == course.trials[i]);
                    assert(more.states[i] == course.states[i]);
                    assert(more.states[i + 1] == course.states[i + 1]);
                } else {
                    assert(more.trials[i] == trial);
                    assert(more.states[i] == before && more.states[i + 1] == *runner);
                }
            }
            course = more;
        }
        match ended {
            Ok(_) => {},
            Err(error) => {
                let mut deferred: Vec<Error> = Vec::new();
                std::mem::swap(&mut deferred, deferred_errors);
                let failure = EachRepoExecutionError::new(deferred, Some(error));
                return (Err(failure), Ghost(course));
            },
        }
    }
    (Ok(()), Ghost(course))
}

/// Whether a repository is chosen: by name, or by none where no names are given; and not left out.
pub open spec fn is_chosen(name: Seq<char>, only: Seq<Seq<char>>, except: Seq<Seq<char>>) -> bool {
    (only.len() == 0 || only.contains(name)) && !except.contains(name)
}

/// The repositories that are chosen, in their order.
pub open spec fn chosen(
    names: Seq<Seq<char>>,
    only: Seq<Seq<char>>,
    except: Seq<Seq<char>>,
) -> Seq<Seq<char>>
    decreases names.len(),
{
    if names.len() == 0 {
        Seq::empty()
    } else {
        let rest = chosen(names.drop_last(), only, except);
        if is_chosen(names.last(), only, except) {
            rest.push(names.last())
        } else {
            rest
        }
    }
}

/// The first of the directories that belongs to no repository.
pub open spec fn unowned_dir(
    view: FileConfigView,
    context: PathContext,
    dirs: Seq<Seq<char>>,
) -> Option<Seq<char>> {
    let n = config::first_unowned(view.owners_of(context, dirs), 0);
    if n < dirs.len() {
        Some(dirs[n])
    } else {
        None
    }
}

/// The names of the repositories in some directories.
pub open spec fn names_in(
    view: FileConfigView,
    context: PathContext,
    dirs: Seq<Seq<char>>,
) -> Seq<Seq<char>> {
    config::owner_names(view.owners_of(context, dirs), dirs.len() as int)
}

/// The repositories that are chosen by their directories, in their order: those in `only_paths`,
/// or all where there are none, without those in `except_paths`.
pub fn filter_repo_names_by_path(
    context: &PathContext,
    file_config: &FileConfig,
    sorted_repo_names: &Vec<String>,
    only_paths: &Vec<String>,
    except_paths: &Vec<String>,
) -> (r: Result<Vec<String>, Error>)
    ensures
        ({
            let view = file_config@;
            let only = text::texts(only_paths@);
            let except = text::texts(except_paths@);
            match (unowned_dir(view, *context, only), unowned_dir(view, *context, except)) {
                (Some(dir), _) => r matches Err(e) && e.message@ == config::no_owner_message(
                    context.absolute(dir),
                ),
                (None, Some(dir)) => r matches Err(e) && e.message@ == config::no_owner_message(
                    context.absolute(dir),
                ),
                (None, None) => r matches Ok(names) && text::texts(names@) == chosen(
                    text::texts(sorted_repo_names@),
                    names_in(view, *context, only),
                    names_in(view, *context, except),
                ),
            }
        }),
{
    proof {
        let only = text::texts(only_paths@);
        let except = text::texts(except_paths@);
        config::lemma_first_unowned(file_config@.owners_of(*context, only), 0);
        config::lemma_first_unowned(file_config@.owners_of(*context, except), 0);
    }
    let map: Vec<RepoPath> = file_config.build_full_path_map(context);
    let only = match config::convert_paths_to_repo_names(context, &map, only_paths) {
        Ok(only) => only,
        Err(e) => {
            return Err(e);
        },
    };
    let except = match config::convert_paths_to_repo_names(context, &map, except_paths) {
        Ok(except) => except,
        Err(e) => {
            return Err(e);
        },
    };
    let ghost all = text::texts(sorted_repo_names@);
    let ghost only_names = text::texts(only@);
    let ghost except_names = text::texts(except@);
    let mut out: Vec<String> = Vec::new();
    for i in 0..sorted_repo_names.len()
        invariant
            all == text::texts(sorted_repo_names@),
            only_names == text::texts(only@),
            except_names == text::texts(except@),
            text::texts(out@) == chosen(all.take(i as int), only_names, except_names),
    {
        assert(all.take(i + 1).drop_last() =~= all.take(i as int));
        let name = sorted_repo_names[i].as_str();
        if (only.len() == 0 || text::texts_contain(&only, name)) && !text::texts_contain(
            &except,
            name,
        ) {
            text::push_text(&mut out, sorted_repo_names[i].clone());
        }
    }
    assert(all.take(all.len() as int) =~= all);
    Ok(out)
}

/// The refusal of a command that says nothing.
pub open spec fn no_command_message() -> Seq<char> {
    "each command arguments are invalid!\n\teach: either --switch-remote or command must be provided"@
}

/// Whether a command says what to do in each repository.
pub fn check_arguments(each_cmd: &EachCommand) -> (r: Result<(), Error>)
    ensures
        match r {
            Ok(_) => each_cmd.switch_remote is Some || each_cmd.cmd@.len() > 0,
            Err(e) => each_cmd.switch_remote is None && each_cmd.cmd@.len() == 0 && e.message@
                == no_command_message(),
        },
{
    if each_cmd.switch_remote.is_none() && each_cmd.cmd.len() == 0 {
        return Err(
            Error::new(
                "each command arguments are invalid!\n\teach: either --switch-remote or command must be provided",
            ),
        );
    }
    Ok(())
}

/// What running a program is called.
pub open spec fn command_action(cmd: Seq<Seq<char>>) -> Seq<char> {
    "custom command: "@ + text::join_of(cmd, " "@)
}

/// All that is to be done: first the switching in each repository, then the program in each, in
/// their order.
pub open spec fn whole_plan(cmd: Seq<Seq<char>>, repo_names: Seq<Seq<char>>) -> Seq<PlannedStep> {
    plan_of(EachStep::SwitchRemote, "switch remote"@, repo_names) + plan_of(
        EachStep::CustomCommand,
        command_action(cmd),
        repo_names,
    )
}

/// Switches the branch in each repository and then runs the command in each, as far as failures do
/// not end it. Where some were put off, they are the answer.
pub fn run<R: EachRunner>(
    repo_names: &Vec<String>,
    each_cmd: &EachCommand,
    runner: &mut R,
) -> (r: Result<(), EachRepoExecutionError>)
    ensures
        ({
            let plan = whole_plan(text::texts(each_cmd.cmd@), text::texts(repo_names@));
            exists|course: Course<R>| #[trigger]
                is_course(course, plan.len(), *old(runner), *final(runner)) && (forall|i: int|
                    #![trigger course.trials[i]]
                    0 <= i < course.trials.len() ==> match course.trials[i] {
                        Trial::Done => exists|t: &mut R, name: &str, done: Result<(), Error>| #[trigger]
                            call_ensures(R::perform, (t, plan[i].step, name), done) && done is Ok && *t
                                == course.states[i]
                                && *final(t) == course.states[i + 1] && name@ == plan[i].repo_name,
                        Trial::Failed(source, answer) => exists|
                            t: &mut R,
                            name: &str,
                            u: &mut R,
                            asked: &str,
                            shown: &str,
                        |
                            #![trigger
                                call_ensures(R::perform, (t, plan[i].step, name), Err::<(), Error>(source)),
                                call_ensures(R::confirm_continue, (u, asked, shown, &source), answer)]
                            call_ensures(R::perform, (t, plan[i].step, name), Err::<(), Error>(source))
                                && call_ensures(R::confirm_continue, (u, asked, shown, &source), answer)
                                && *t == course.states[i] && *u == *final(t) && *final(u)
                                == course.states[i + 1] && name@ == plan[i].repo_name
                                && asked@ == plan[i].repo_name && shown@ == plan[i].action,
                    }) && if is_cut_short(course.trials) {
                    r matches Err(error) && is_interruption(
                        error,
                        Seq::empty(),
                        plan,
                        course.trials,
                    )
                } else if deferred_of(course.trials).len() > 0 {
                    r matches Err(error) && is_error_of(error, deferred_of(course.trials), None)
                } else {
                    r is Ok
                }
        }),
{
    let ghost names = text::texts(repo_names@);
    let ghost plan = whole_plan(text::texts(each_cmd.cmd@), names);
    let ghost before = *runner;
    let mut deferred_errors: Vec<Error> = Vec::new();
    let (switched, Ghost(first)) = run_repo_command(
        repo_names,
        &mut deferred_errors,
        EachStep::SwitchRemote,
        "switch remote",
        runner,
    );
    assert(Seq::<Error>::empty() + deferred_of(first.trials) =~= deferred_of(first.trials));
    match switched {
        Ok(_) => {},
        Err(error) => {
            assert(is_course(first, plan.len(), before, *runner));
            return Err(error);
        },
    }
    let mut action = "custom command: ".to_owned();
    let shown = text::join(&each_cmd.cmd, " ");
    action.append(shown.as_str());
    let (ran, Ghost(second)) = run_repo_command(
        repo_names,
        &mut deferred_errors,
        EachStep::CustomCommand,
        action.as_str(),
        runner,
    );
    proof {
        let n = names.len();
        let course = Course {
            trials: first.trials + second.trials,
            states: first.states + second.states.skip(1),
        };
        assert(first.trials.len() == n);
        lemma_deferred_together(first.trials, second.trials);
        assert forall|i: int|
            #![trigger course.trials[i]]
            0 <= i < course.trials.len() implies match course.trials[i] {
                Trial::Done => exists|t: &mut R, name: &str, done: Result<(), Error>| #[trigger]
                    call_ensures(R::perform, (t, plan[i].step, name), done) && done is Ok && *t
                        == course.states[i]
                        && *final(t) == course.states[i + 1] && name@ == plan[i].repo_name,
                Trial::Failed(source, answer) => exists|
                    t: &mut R,
                    name: &str,
                    u: &mut R,
                    asked: &str,
                    shown: &str,
                |
                    #![trigger
                        call_ensures(R::perform, (t, plan[i].step, name), Err::<(), Error>(source)),
                        call_ensures(R::confirm_continue, (u, asked, shown, &source), answer)]
                    call_ensures(R::perform, (t, plan[i].step, name), Err::<(), Error>(source))
                        && call_ensures(R::confirm_continue, (u, asked, shown, &source), answer)
                        && *t == course.states[i] && *u == *final(t) && *final(u)
                        == course.states[i + 1] && name@ == plan[i].repo_name
                        && asked@ == plan[i].repo_name && shown@ == plan[i].action,
            } by {
            if i < n {
                assert(course.trials[i] == first.trials[i]);
                assert(course.states[i] == first.states[i]);
                assert(course.states[i + 1] == first.states[i + 1]);
            } else {
                assert(course.trials[i] == second.trials[i - n]);
                assert(course.states[i] == second.states[i - n]);
                assert(course.states[i + 1] == second.states[i - n + 1]);
                assert(plan[i] == plan_of(EachStep::CustomCommand, action@, names)[i - n]);
            }
        }
        assert forall|i: int| 0 <= i < course.trials.len() - 1 implies !is_stop(
            #[trigger] course.trials[i],
        ) by {
            if i < n {
                assert(course.trials[i] == first.trials[i]);
            } else {
                assert(course.trials[i] == second.trials[i - n]);
            }
        }
        assert(is_cut_short(course.trials) == is_cut_short(second.trials));
        assert(is_course(course, plan.len(), before, *runner));
    }
    match ran {
        Ok(_) => {},
        Err(error) => {
            return Err(error);
        },
    }
    if deferred_errors.len() > 0 {
        return Err(EachRepoExecutionError::new(deferred_errors, None));
    }
    Ok(())
}

/// A program with its arguments.
pub struct CommandLine {
    pub program: String,
    pub arguments: Vec<String>,
}

/// The program to run in a repository; `None` where there is nothing to run.
pub fn custom_command(cmd: &Vec<String>) -> (r: Option<CommandLine>)
    ensures
        match r {
            Some(line) => cmd@.len() > 0 && seq![line.program@] + text::texts(line.arguments@)
                == text::texts(cmd@),
            None => cmd@.len() == 0,
        },
{
    if cmd.len() == 0 {
        return None;
    }
    let ghost all = text::texts(cmd@);
    let mut arguments: Vec<String> = Vec::new();
    for i in 1..cmd.len()
        invariant
            all == text::texts(cmd@),
            cmd@.len() > 0,
            text::texts(arguments@) == all.subrange(1, i as int),
    {
        text::push_text(&mut arguments, cmd[i].clone());
        assert(all.subrange(1, i + 1) =~= all.subrange(1, i as int).push(all[i as int]));
    }
    assert(seq![all[0]] + all.subrange(1, all.len() as int) =~= all);
    Some(CommandLine { program: cmd[0].clone(), arguments })
}

/// A repository is chosen where it is among those to choose from, is named or none is, and is not
/// left out; their order stays.
pub proof fn law_chosen_repositories(
    names: Seq<Seq<char>>,
    only: Seq<Seq<char>>,
    except: Seq<Seq<char>>,
)
    ensures
        forall|n: Seq<char>| #[trigger]
            chosen(names, only, except).contains(n) <==> names.contains(n) && is_chosen(
                n,
                only,
                except,
            ),
        names.no_duplicates() ==> chosen(names, only, except).no_duplicates(),
    decreases names.len(),
{
    if names.len() > 0 {
        let front = names.drop_last();
        let rest = chosen(front, only, except);
        let after = chosen(names, only, except);
        law_chosen_repositories(front, only, except);
        assert forall|n: Seq<char>| #[trigger]
            after.contains(n) <==> names.contains(n) && is_chosen(n, only, except) by {
            if names.contains(n) && n != names.last() {
                assert(front[names.index_of(n)] == n);
            }
            if front.contains(n) {
                assert(names[front.index_of(n)] == n);
            }
            assert(names[names.len() - 1] == names.last());
            if is_chosen(names.last(), only, except) {
                assert(after[rest.len() as int] == names.last());
                if rest.contains(n) {
                    assert(after[rest.index_of(n)] == n);
                }
                if after.contains(n) && n != names.last() {
                    assert(rest[after.index_of(n)] == n);
                }
            }
        }
        if names.no_duplicates() {
            assert(!front.contains(names.last())) by {
                if front.contains(names.last()) {
                    assert(names[front.index_of(names.last())] == names[names.len() - 1]);
                }
            }
            assert(!rest.contains(names.last()));
            assert forall|i: int, j: int| 0 <= i < after.len() && 0 <= j < after.len() && i != j implies after[i]
                != after[j] by {
                if i < rest.len() && j < rest.len() {
                    assert(rest[i] != rest[j]);
                } else if i < rest.len() {
                    assert(rest.contains(rest[i]));
                } else {
                    assert(rest.contains(rest[j]));
                }
            }
        }
    }
}

/// Without directories to choose by, every repository is chosen.
pub proof fn law_all_repositories_are_chosen(names: Seq<Seq<char>>)
    ensures
        chosen(names, Seq::empty(), Seq::empty()) == names,
    decreases names.len(),
{
    if names.len() > 0 {
        law_all_repositories_are_chosen(names.drop_last());
        assert(names =~= names.drop_last().push(names.last()));
    } else {
        assert(names =~= Seq::empty());
    }
}

/// `part` holds the members of `names` at the places `at`, which rise.
pub open spec fn is_selection(at: Seq<int>, names: Seq<Seq<char>>, part: Seq<Seq<char>>) -> bool {
    &&& at.len() == part.len()
    &&& forall|i: int|
        0 <= i < at.len() ==> 0 <= #[trigger] at[i] < names.len() && part[i] == names[at[i]]
    &&& forall|i: int, j: int| 0 <= i < j < at.len() ==> #[trigger] at[i] < #[trigger] at[j]
}

/// The chosen repositories are in the order of those to choose from.
pub proof fn law_chosen_repositories_keep_their_order(
    names: Seq<Seq<char>>,
    only: Seq<Seq<char>>,
    except: Seq<Seq<char>>,
)
    ensures
        exists|at: Seq<int>| #[trigger] is_selection(at, names, chosen(names, only, except)),
    decreases names.len(),
{
    if names.len() == 0 {
        assert(is_selection(Seq::empty(), names, chosen(names, only, except)));
    } else {
        let front = names.drop_last();
        let rest = chosen(front, only, except);
        law_chosen_repositories_keep_their_order(front, only, except);
        let at = choose|at: Seq<int>| #[trigger] is_selection(at, front, rest);
        let more = if is_chosen(names.last(), only, except) {
            at.push(names.len() - 1)
        } else {
            at
        };
        let part = chosen(names, only, except);
        assert forall|i: int| 0 <= i < more.len() implies 0 <= #[trigger] more[i] < names.len()
            && part[i] == names[more[i]] by {
            if i < at.len() {
                assert(at[i] == more[i]);
                assert(front[at[i]] == names[at[i]]);
            }
        }
        assert(is_selection(more, names, part));
    }
}

/// The branch is switched in every repository before a program is run in any, and both go through
/// the repositories once, in their order.
pub proof fn law_branches_are_switched_first(
    cmd: Seq<Seq<char>>,
    repo_names: Seq<Seq<char>>,
    i: int,
)
    requires
        0 <= i < repo_names.len(),
    ensures
        whole_plan(cmd, repo_names).len() == repo_names.len() + repo_names.len(),
        whole_plan(cmd, repo_names)[i].step == EachStep::SwitchRemote,
        whole_plan(cmd, repo_names)[i].repo_name == repo_names[i],
        whole_plan(cmd, repo_names)[repo_names.len() + i].step == EachStep::CustomCommand,
        whole_plan(cmd, repo_names)[repo_names.len() + i].repo_name == repo_names[i],
{
}

/// A failure that is put off changes nothing of what is done after it: where every failure is put
/// off, every step is tried, and all the failures are kept in their order.
pub proof fn law_deferred_failures_stop_nothing<R>(course: Course<R>, n: nat, before: R, after: R)
    requires
        is_course(course, n, before, after),
        forall|i: int| 0 <= i < course.trials.len() ==> !is_stop(#[trigger] course.trials[i]),
    ensures
        course.trials.len() == n,
        deferred_of(course.trials) == failures_of(course.trials),
{
    lemma_all_deferred(course.trials);
}

/// The failures.
pub open spec fn failures_of(trials: Seq<Trial>) -> Seq<Error>
    decreases trials.len(),
{
    if trials.len() == 0 {
        Seq::empty()
    } else {
        let before = failures_of(trials.drop_last());
        match trials.last() {
            Trial::Failed(source, _) => before.push(source),
            _ => before,
        }
    }
}

proof fn lemma_all_deferred(trials: Seq<Trial>)
    requires
        forall|i: int| 0 <= i < trials.len() ==> !is_stop(#[trigger] trials[i]),
    ensures
        deferred_of(trials) == failures_of(trials),
    decreases trials.len(),
{
    if trials.len() > 0 {
        let front = trials.drop_last();
        assert forall|i: int| 0 <= i < front.len() implies !is_stop(#[trigger] front[i]) by {
            assert(front[i] == trials[i]);
        }
        lemma_all_deferred(front);
        assert(!is_stop(trials[trials.len() - 1]));
    }
}

} // verus!
