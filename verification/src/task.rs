//! Tasks on repositories: run where they are not finished, with their input from a container
//! and their output to it.

use crate::error::{self, Error};
use vstd::prelude::*;

verus! {

/// What a task is called where its state is kept.
pub trait TaskMeta {
    fn id(&self) -> (r: &'static str);
}

/// A task from an input to an output.
pub trait CoreTask: TaskMeta {
    type Input<'a>;

    type Output;

    /// What may come of executing the task: anything, where the task does not say.
    open spec fn executes<'a>(
        &self,
        input: Self::Input<'a>,
        r: Result<Self::Output, Error>,
    ) -> bool {
        true
    }

    fn execute<'a>(&self, input: Self::Input<'a>) -> (r: Result<Self::Output, Error>)
        ensures
            self.executes(input, r),
    ;
}

/// Keeps what tasks are finished.
pub trait DataContainerBase {
    fn save(&self) -> (r: Result<(), Error>);

    fn mark_task_finish(&mut self, repo_name: &str, task_id: &str) -> (r: Result<(), Error>);

    fn is_task_finished(&self, repo_name: &str, task_id: &str) -> (r: Result<bool, Error>);
}

/// Keeps the input and the output of a task.
pub trait DataContainer<T: CoreTask>: DataContainerBase {
    /// What may come of fetching the input: anything, where the container does not say.
    open spec fn gets_input<'a>(
        &'a self,
        repo_name: &str,
        task_id: &str,
        r: Result<T::Input<'a>, Error>,
    ) -> bool {
        true
    }

    /// What may come of keeping the output, with the container afterwards: anything, where the
    /// container does not say.
    open spec fn saves_output(
        &self,
        repo_name: &str,
        task_id: &str,
        output: T::Output,
        after: &Self,
        r: Result<(), Error>,
    ) -> bool {
        true
    }

    fn get_input<'a>(&'a self, repo_name: &str, task_id: &str) -> (r: Result<T::Input<'a>, Error>)
        ensures
            self.gets_input(repo_name, task_id, r),
    ;

    fn save_output(&mut self, repo_name: &str, task_id: &str, output: T::Output) -> (r: Result<
        (),
        Error,
    >)
        ensures
            old(self).saves_output(repo_name, task_id, output, &*final(self), r),
    ;
}

/// Runs a task on a repository where it is not finished: fetches its input, executes it, keeps
/// its output, marks it as finished and saves the container. The first failure is the answer;
/// before the output is kept it leaves the container as it is.
pub fn run_task<T: CoreTask, C: DataContainer<T>>(
    task: &T,
    container: &mut C,
    repo_name: &str,
) -> (r: Result<(), Error>)
    ensures
        exists|id: &'static str, finished: Result<bool, Error>|
            #![trigger call_ensures(T::id, (task,), id), call_ensures(C::is_task_finished, (&*old(container), repo_name, id), finished)]
            call_ensures(T::id, (task,), id) && call_ensures(
                C::is_task_finished,
                (&*old(container), repo_name, id),
                finished,
            ) && match finished {
                Err(e) => r == Err::<(), Error>(e) && *final(container) == *old(container),
                Ok(true) => r is Ok && *final(container) == *old(container),
                Ok(false) => exists|input: Result<T::Input<'_>, Error>| #[trigger]
                    call_ensures(
                        <C as DataContainer<T>>::get_input,
                        (&*old(container), repo_name, id),
                        input,
                    ) && match input {
                        Err(e) => r == Err::<(), Error>(e) && *final(container) == *old(container),
                        Ok(i) => exists|output: Result<T::Output, Error>| #[trigger]
                            call_ensures(<T as CoreTask>::execute, (task, i), output)
                                && match output {
                                Err(e) => r == Err::<(), Error>(e) && *final(container) == *old(container),
                                Ok(out) => exists|c: &mut C, kept: Result<(), Error>| #[trigger]
                                    call_ensures(
                                        <C as DataContainer<T>>::save_output,
                                        (c, repo_name, id, out),
                                        kept,
                                    ) && *c == *old(container) && match kept {
                                        Err(e) => r == Err::<(), Error>(e) && *final(container)
                                            == *final(c),
                                        Ok(_) => exists|d: &mut C, marked: Result<(), Error>| #[trigger]
                                            call_ensures(
                                                C::mark_task_finish,
                                                (d, repo_name, id),
                                                marked,
                                            ) && *d == *final(c) && *final(container) == *final(d)
                                                && match marked {
                                                Err(e) => r == Err::<(), Error>(e),
                                                Ok(_) => call_ensures(C::save, (&*final(d),), r),
                                            },
                                    },
                            },
                    },
            },
{
    let id = task.id();
    match container.is_task_finished(repo_name, id) {
        Err(e) => {
            return Err(e);
        },
        Ok(true) => {
            return Ok(());
        },
        Ok(false) => {},
    }
    let input = match container.get_input(repo_name, id) {
        Ok(input) => input,
        Err(e) => {
            return Err(e);
        },
    };
    let output = match <T as CoreTask>::execute(task, input) {
        Ok(output) => output,
        Err(e) => {
            return Err(e);
        },
    };
    match container.save_output(repo_name, id, output) {
        Ok(_) => {},
        Err(e) => {
            return Err(e);
        },
    }
    match container.mark_task_finish(repo_name, id) {
        Ok(_) => {},
        Err(e) => {
            return Err(e);
        },
    }
    container.save()
}

/// Runs its tasks on one repository after another.
pub trait VariadicTaskRunner {
    fn run_one_repo(&mut self, repo_name: &str) -> (r: Result<(), Error>);
}

/// Runs one task.
pub struct SingleTask<C, T> {
    pub container: C,
    pub task: T,
}

impl<C: DataContainer<T>, T: CoreTask> VariadicTaskRunner for SingleTask<C, T> {
    fn run_one_repo(&mut self, repo_name: &str) -> (r: Result<(), Error>)
        ensures
            final(self).task == old(self).task,
            exists|c: &mut C| #[trigger]
                call_ensures(run_task::<T, C>, (&old(self).task, c, repo_name), r) && *c == old(
                    self,
                ).container && *final(c) == final(self).container,
    {
        run_task(&self.task, &mut self.container, repo_name)
    }
}

/// Runs two tasks, the second where the first did not fail.
pub struct TaskPair<C, A, B> {
    pub container: C,
    pub first: A,
    pub second: B,
}

impl<
    C: DataContainer<A> + DataContainer<B>,
    A: CoreTask,
    B: CoreTask,
> VariadicTaskRunner for TaskPair<C, A, B> {
    fn run_one_repo(&mut self, repo_name: &str) -> (r: Result<(), Error>)
        ensures
            final(self).first == old(self).first,
            final(self).second == old(self).second,
            exists|c: &mut C, done: Result<(), Error>| #[trigger]
                call_ensures(run_task::<A, C>, (&old(self).first, c, repo_name), done) && *c == old(
                    self,
                ).container && match done {
                    Err(e) => r == Err::<(), Error>(e) && *final(c) == final(self).container,
                    Ok(_) => exists|d: &mut C| #[trigger]
                        call_ensures(run_task::<B, C>, (&old(self).second, d, repo_name), r) && *d
                            == *final(c) && *final(d) == final(self).container,
                },
    {
        match run_task(&self.first, &mut self.container, repo_name) {
            Err(e) => Err(e),
            Ok(_) => run_task(&self.second, &mut self.container, repo_name),
        }
    }
}

/// Runs the tasks on each repository in turn; the first failure ends it. The runner goes through
/// `states`: each comes from the one before it by running the tasks on the next repository,
/// without a failure but perhaps at the last.
pub fn run_all<T: VariadicTaskRunner>(runner: &mut T, repo_names: &Vec<String>) -> (r: Result<
    (),
    Error,
>)
    ensures
        exists|states: Seq<T>, outcomes: Seq<Result<(), Error>>|
            #![trigger states.len(), outcomes.len()]
            {
                &&& states.len() == outcomes.len() + 1
                &&& outcomes.len() <= repo_names@.len()
                &&& states[0] == *old(runner)
                &&& states.last() == *final(runner)
                &&& forall|i: int|
                    #![trigger outcomes[i]]
                    0 <= i < outcomes.len() ==> (outcomes[i] is Ok || i == outcomes.len() - 1) && (
                    exists|t: &mut T, name: &str| #[trigger]
                        call_ensures(T::run_one_repo, (t, name), outcomes[i]) && *t == states[i]
                            && *final(t) == states[i + 1] && name@ == repo_names@[i]@)
                &&& match r {
                    Ok(_) => outcomes.len() == repo_names@.len() && (outcomes.len() > 0
                        ==> outcomes.last() is Ok),
                    Err(e) => outcomes.len() > 0 && outcomes.last() == Err::<(), Error>(e),
                }
            },
{
    let ghost mut states: Seq<T> = seq![*runner];
    let ghost mut outcomes: Seq<Result<(), Error>> = Seq::empty();
    for i in 0..repo_names.len()
        invariant
            outcomes.len() == i,
            states.len() == i + 1,
            states[0] == *old(runner),
            states.last() == *runner,
            forall|k: int|
                #![trigger outcomes[k]]
                0 <= k < i ==> outcomes[k] is Ok && (exists|t: &mut T, name: &str| #[trigger]
                    call_ensures(T::run_one_repo, (t, name), outcomes[k]) && *t == states[k]
                        && *final(t) == states[k + 1] && name@ == repo_names@[k]@),
    {
        let ghost before = *runner;
        let outcome = runner.run_one_repo(repo_names[i].as_str());
        proof {
            let more_states = states.push(*runner);
            let more_outcomes = outcomes.push(outcome);
            assert(exists|t: &mut T, name: &str| #[trigger]
                call_ensures(T::run_one_repo, (t, name), outcome) && *t == before && *final(t)
                    == *runner && name@ == repo_names@[i as int]@);
            assert forall|k: int|
                #![trigger more_outcomes[k]]
                0 <= k < i + 1 implies (more_outcomes[k] is Ok || k == i) && (exists|
                t: &mut T,
                name: &str,
            | #[trigger]
                call_ensures(T::run_one_repo, (t, name), more_outcomes[k]) && *t == more_states[k]
                    && *final(t) == more_states[k + 1] && name@ == repo_names@[k]@) by {
                if k < i {
                    assert(more_outcomes[k] == outcomes[k]);
                    assert(more_states[k] == states[k] && more_states[k + 1] == states[k + 1]);
                    assert(exists|t: &mut T, name: &str| #[trigger]
                        call_ensures(T::run_one_repo, (t, name), outcomes[k]) && *t == states[k]
                            && *final(t) == states[k + 1] && name@ == repo_names@[k]@);
                } else {
                    assert(k == i);
                    assert(more_outcomes[k] == outcome);
                    assert(more_states[k] == before && more_states[k + 1] == *runner);
                }
            }
            states = more_states;
            outcomes = more_outcomes;
        }
        match outcome {
            Ok(_) => {},
            Err(e) => {
                assert(states.len() == i + 2 && outcomes.len() == i + 1);
                assert(states[0] == *old(runner) && states.last() == *runner);
                assert(outcomes.last() == Err::<(), Error>(e));
                return Err(e);
            },
        }
    }
    Ok(())
}

/// A task that also gets what it was last run with, to tell what it can leave out.
pub trait IncrementalTask: TaskMeta {
    type Input<'a>;

    type Output;

    /// What the task was run with.
    type Fingerprint;

    /// Runs the task. Where the last fingerprint could not be read it is an error, which mostly
    /// counts as none.
    fn execute<'a>(
        &self,
        input: Self::Input<'a>,
        last_fingerprint: &Result<Self::Fingerprint, Error>,
    ) -> (r: Result<(Self::Output, Self::Fingerprint), Error>);

    /// The fingerprint as JSON text, as which it is kept.
    fn fingerprint_to_json(&self, fingerprint: &Self::Fingerprint) -> (r: Result<
        String,
        Error,
    >);

    /// The fingerprint that was kept as this JSON text.
    fn json_to_fingerprint(&self, doc: String) -> (r: Result<Self::Fingerprint, Error>);
}

/// What a task gets of the fingerprint that was read: a failure of the reading in its context.
pub open spec fn is_last<F>(read: Result<F, Error>, last: Result<F, Error>) -> bool {
    match read {
        Ok(mark) => last == Ok::<F, Error>(mark),
        Err(cause) => last matches Err(e) && error::is_in_context(
            e,
            cause,
            "Failed to deserialize fingerprint"@,
        ),
    }
}

/// What comes of running an incremental task on an input with the fingerprint that was kept: the
/// kept one is read, the task runs whether or not that could be read, and its fingerprint is
/// written. The first failure of the task or the writing is the answer.
pub open spec fn executes_incrementally<'a, T: IncrementalTask>(
    task: &T,
    doc: String,
    input: <T as IncrementalTask>::Input<'a>,
    r: Result<(String, <T as IncrementalTask>::Output), Error>,
) -> bool {
    exists|
        read: Result<T::Fingerprint, Error>,
        last: Result<T::Fingerprint, Error>,
        done: Result<(<T as IncrementalTask>::Output, T::Fingerprint), Error>,
    |
        #![trigger call_ensures(T::json_to_fingerprint, (task, doc), read), call_ensures(<T as IncrementalTask>::execute, (task, input, &last), done)]
        call_ensures(T::json_to_fingerprint, (task, doc), read) && is_last(read, last)
            && call_ensures(
            <T as IncrementalTask>::execute,
            (task, input, &last),
            done,
        ) && match done {
            Err(e) => r == Err::<
                (String, <T as IncrementalTask>::Output),
                Error,
            >(e),
            Ok((output, now)) => exists|json: Result<String, Error>| #[trigger]
                call_ensures(T::fingerprint_to_json, (task, &now), json) && match json {
                    Err(e) => r == Err::<
                        (String, <T as IncrementalTask>::Output),
                        Error,
                    >(e),
                    Ok(json) => r == Ok::<
                        (String, <T as IncrementalTask>::Output),
                        Error,
                    >((json, output)),
                },
        }
}

/// Runs an incremental task on its input with the fingerprint that was kept: reads that, whether
/// or not it can be read runs the task, and writes the new one. The first failure of the task or
/// the writing is the answer.
pub fn execute_incremental<'a, T: IncrementalTask>(
    task: &T,
    doc: String,
    input: <T as IncrementalTask>::Input<'a>,
) -> (r: Result<(String, <T as IncrementalTask>::Output), Error>)
    ensures
        executes_incrementally(task, doc, input, r),
{
    let last = match task.json_to_fingerprint(doc) {
        Ok(mark) => Ok(mark),
        Err(e) => Err(e.with_context("Failed to deserialize fingerprint")),
    };
    match <T as IncrementalTask>::execute(task, input, &last) {
        Err(e) => Err(e),
        Ok((output, now)) => match task.fingerprint_to_json(&now) {
            Err(e) => Err(e),
            Ok(json) => Ok((json, output)),
        },
    }
}

impl<T: IncrementalTask> CoreTask for T {
    type Input<'a> = (String, <T as IncrementalTask>::Input<'a>);

    type Output = (String, <T as IncrementalTask>::Output);

    open spec fn executes<'a>(
        &self,
        input: (String, <T as IncrementalTask>::Input<'a>),
        r: Result<(String, <T as IncrementalTask>::Output), Error>,
    ) -> bool {
        executes_incrementally(self, input.0, input.1, r)
    }

    fn execute<'a>(&self, input: (String, <T as IncrementalTask>::Input<'a>)) -> (r:
        Result<(String, <T as IncrementalTask>::Output), Error>) {
        let (doc, input) = input;
        execute_incremental(self, doc, input)
    }
}

/// Keeps fingerprints as JSON text; `null` stands for none.
pub trait FingerprintProvider: DataContainerBase {
    fn get_fingerprint_json(&self, repo_name: &str, task_id: &str) -> (r: Result<
        String,
        Error,
    >);

    /// What may come of keeping a fingerprint, with the container afterwards: anything, where the
    /// container does not say.
    open spec fn saves_fingerprint(
        &self,
        repo_name: &str,
        task_id: &str,
        fingerprint: String,
        after: &Self,
        r: Result<(), Error>,
    ) -> bool {
        true
    }

    fn save_fingerprint_json(
        &mut self,
        repo_name: &str,
        task_id: &str,
        fingerprint: String,
    ) -> (r: Result<(), Error>)
        ensures
            old(self).saves_fingerprint(repo_name, task_id, fingerprint, &*final(self), r),
    ;
}

/// Keeps the input and the output of an incremental task.
pub trait IncrementalDataContainer<T: IncrementalTask>: FingerprintProvider {
    fn get_input<'a>(&'a self, repo_name: &str) -> (r: Result<
        <T as IncrementalTask>::Input<'a>,
        Error,
    >);

    /// What may come of keeping the output, with the container afterwards: anything, where the
    /// container does not say.
    open spec fn keeps_output(
        &self,
        repo_name: &str,
        output: <T as IncrementalTask>::Output,
        after: &Self,
        r: Result<(), Error>,
    ) -> bool {
        true
    }

    fn save_output(
        &mut self,
        repo_name: &str,
        output: <T as IncrementalTask>::Output,
    ) -> (r: Result<(), Error>)
        ensures
            old(self).keeps_output(repo_name, output, &*final(self), r),
    ;
}

/// What comes of fetching the fingerprint that was kept for an incremental task, and then its
/// input: both, or the first failure.
pub open spec fn gets_incremental_input<'a, T: IncrementalTask, C: IncrementalDataContainer<T>>(
    container: &'a C,
    repo_name: &str,
    task_id: &str,
    r: Result<(String, <T as IncrementalTask>::Input<'a>), Error>,
) -> bool {
    exists|kept: Result<String, Error>| #[trigger]
        call_ensures(C::get_fingerprint_json, (container, repo_name, task_id), kept)
            && match kept {
            Err(e) => r == Err::<
                (String, <T as IncrementalTask>::Input<'a>),
                Error,
            >(e),
            Ok(fingerprint) => exists|
                input: Result<<T as IncrementalTask>::Input<'a>, Error>,
            | #[trigger]
                call_ensures(
                    <C as IncrementalDataContainer<T>>::get_input,
                    (container, repo_name),
                    input,
                ) && match input {
                    Err(e) => r == Err::<
                        (String, <T as IncrementalTask>::Input<'a>),
                        Error,
                    >(e),
                    Ok(i) => r == Ok::<
                        (String, <T as IncrementalTask>::Input<'a>),
                        Error,
                    >((fingerprint, i)),
                },
        }
}

/// The fingerprint that was kept for an incremental task, and its input; the first failure is
/// the answer.
pub fn incremental_input<'a, T: IncrementalTask, C: IncrementalDataContainer<T>>(
    container: &'a C,
    repo_name: &str,
    task_id: &str,
) -> (r: Result<(String, <T as IncrementalTask>::Input<'a>), Error>)
    ensures
        gets_incremental_input::<T, C>(container, repo_name, task_id, r),
{
    match container.get_fingerprint_json(repo_name, task_id) {
        Err(e) => Err(e),
        Ok(fingerprint) => match <C as IncrementalDataContainer<T>>::get_input(
            container,
            repo_name,
        ) {
            Err(e) => Err(e),
            Ok(input) => Ok((fingerprint, input)),
        },
    }
}

/// What becomes of a container that keeps the fingerprint of an incremental task and then its
/// output: the first failure is the answer, and leaves the container as it was left then.
pub open spec fn saves_incremental_output<T: IncrementalTask, C: IncrementalDataContainer<T>>(
    before: C,
    repo_name: &str,
    task_id: &str,
    fingerprint: String,
    output: <T as IncrementalTask>::Output,
    after: C,
    r: Result<(), Error>,
) -> bool {
    exists|between: C, kept: Result<(), Error>| #[trigger]
        before.saves_fingerprint(repo_name, task_id, fingerprint, &between, kept) && match kept {
            Err(e) => r == Err::<(), Error>(e) && after == between,
            Ok(_) => between.keeps_output(repo_name, output, &after, r),
        }
}

/// Keeps the fingerprint of an incremental task and then its output; the first failure is the
/// answer.
pub fn save_incremental_output<T: IncrementalTask, C: IncrementalDataContainer<T>>(
    container: &mut C,
    repo_name: &str,
    task_id: &str,
    fingerprint: String,
    output: <T as IncrementalTask>::Output,
) -> (r: Result<(), Error>)
    ensures
        exists|c: &mut C, kept: Result<(), Error>| #[trigger]
            call_ensures(
                C::save_fingerprint_json,
                (c, repo_name, task_id, fingerprint),
                kept,
            ) && *c == *old(container) && match kept {
                Err(e) => r == Err::<(), Error>(e) && *final(container) == *final(c),
                Ok(_) => exists|d: &mut C| #[trigger]
                    call_ensures(
                        <C as IncrementalDataContainer<T>>::save_output,
                        (d, repo_name, output),
                        r,
                    ) && *d == *final(c) && *final(container) == *final(d),
            },
        saves_incremental_output::<T, C>(
            *old(container),
            repo_name,
            task_id,
            fingerprint,
            output,
            *final(container),
            r,
        ),
{
    match container.save_fingerprint_json(repo_name, task_id, fingerprint) {
        Err(e) => Err(e),
        Ok(_) => <C as IncrementalDataContainer<T>>::save_output(container, repo_name, output),
    }
}

impl<T: IncrementalTask, C: IncrementalDataContainer<T>> DataContainer<T> for C {
    open spec fn gets_input<'a>(
        &'a self,
        repo_name: &str,
        task_id: &str,
        r: Result<(String, <T as IncrementalTask>::Input<'a>), Error>,
    ) -> bool {
        gets_incremental_input::<T, C>(self, repo_name, task_id, r)
    }

    open spec fn saves_output(
        &self,
        repo_name: &str,
        task_id: &str,
        output: (String, <T as IncrementalTask>::Output),
        after: &C,
        r: Result<(), Error>,
    ) -> bool {
        saves_incremental_output::<T, C>(
            *self,
            repo_name,
            task_id,
            output.0,
            output.1,
            *after,
            r,
        )
    }

    fn get_input<'a>(&'a self, repo_name: &str, task_id: &str) -> (r: Result<
        (String, <T as IncrementalTask>::Input<'a>),
        Error,
    >) {
        incremental_input::<T, C>(self, repo_name, task_id)
    }

    fn save_output(
        &mut self,
        repo_name: &str,
        task_id: &str,
        output: (String, <T as IncrementalTask>::Output),
    ) -> (r: Result<(), Error>) {
        let (fingerprint, output) = output;
        save_incremental_output::<T, C>(self, repo_name, task_id, fingerprint, output)
    }
}

} // verus!
