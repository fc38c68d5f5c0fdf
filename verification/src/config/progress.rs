//! The settings and the progress of a session as what tasks read from and leave behind in.

use super::task_containers;
use super::{FileConfig, FileConfigView, RepoCacheView};
use crate::error::Error;
use crate::repo::{GitMergeExecutor, GitMergeInput, GitMergeOutput, GitMergeTask};
use crate::task::{run_task, DataContainer, DataContainerBase, FingerprintProvider};
use vstd::prelude::*;

verus! {

/// Where the progress is kept between sessions.
pub trait ProgressStore {
    fn save(&self, config: &FileConfig) -> (r: Result<(), Error>);
}

/// The settings and the progress of a session, and where they are kept.
pub struct Progress<S> {
    pub store: S,
    pub config: FileConfig,
}

impl<S: ProgressStore> DataContainerBase for Progress<S> {
    fn save(&self) -> (r: Result<(), Error>)
        ensures
            call_ensures(S::save, (&self.store, &self.config), r),
    {
        self.store.save(&self.config)
    }

    fn mark_task_finish(&mut self, repo_name: &str, task_id: &str) -> (r: Result<(), Error>)
        ensures
            r is Ok,
            final(self).store == old(self).store,
            final(self).config@ == old(self).config@.with_finished(repo_name@, task_id@),
    {
        self.config.mark_task_finish(repo_name, task_id);
        Ok(())
    }

    fn is_task_finished(&self, repo_name: &str, task_id: &str) -> (r: Result<bool, Error>)
        ensures
            r == Ok::<bool, Error>(self.config@.is_finished(repo_name@, task_id@)),
    {
        Ok(self.config.is_task_finished(repo_name, task_id))
    }
}

/// What becomes of the settings that keep a fingerprint: only that changes, and nothing where the
/// repository is unknown.
pub open spec fn keeps_fingerprint(
    before: FileConfigView,
    repo_name: Seq<char>,
    task_id: Seq<char>,
    fingerprint: Seq<char>,
    after: FileConfigView,
    r: Result<(), Error>,
) -> bool {
    if before.repo_caches.contains_key(repo_name) {
        let cache = before.repo_caches[repo_name];
        &&& r is Ok
        &&& after == before.with_cache(
            repo_name,
            RepoCacheView {
                task_fingerprints: cache.task_fingerprints.insert(task_id, fingerprint),
                ..cache
            },
        )
    } else {
        &&& r matches Err(e)
        &&& e.message@ == task_containers::no_cache_message(repo_name)
        &&& after == before
    }
}

impl<S: ProgressStore> FingerprintProvider for Progress<S> {
    fn get_fingerprint_json(&self, repo_name: &str, task_id: &str) -> (r: Result<String, Error>)
        ensures
            r matches Ok(json) && json@ == self.config@.fingerprint_of(repo_name@, task_id@),
    {
        Ok(self.config.get_fingerprint_json(repo_name, task_id))
    }

    open spec fn saves_fingerprint(
        &self,
        repo_name: &str,
        task_id: &str,
        fingerprint: String,
        after: &Self,
        r: Result<(), Error>,
    ) -> bool {
        &&& after.store == self.store
        &&& keeps_fingerprint(
            self.config@,
            repo_name@,
            task_id@,
            fingerprint@,
            after.config@,
            r,
        )
    }

    fn save_fingerprint_json(
        &mut self,
        repo_name: &str,
        task_id: &str,
        fingerprint: String,
    ) -> (r: Result<(), Error>) {
        self.config.save_fingerprint_json(repo_name, task_id, fingerprint)
    }
}

impl<S: ProgressStore, E: GitMergeExecutor> DataContainer<GitMergeTask<E>> for Progress<S> {
    open spec fn gets_input<'a>(
        &'a self,
        repo_name: &str,
        task_id: &str,
        r: Result<GitMergeInput, Error>,
    ) -> bool {
        task_containers::gets_branches(self.config@, repo_name@, r)
    }

    open spec fn saves_output(
        &self,
        repo_name: &str,
        task_id: &str,
        output: GitMergeOutput,
        after: &Self,
        r: Result<(), Error>,
    ) -> bool {
        &&& after.store == self.store
        &&& task_containers::keeps_branches(
            self.config@,
            repo_name@,
            output,
            after.config@,
            r,
        )
    }

    fn get_input<'a>(&'a self, repo_name: &str, task_id: &str) -> (r: Result<
        GitMergeInput,
        Error,
    >) {
        self.config.git_merge_input(repo_name)
    }

    fn save_output(&mut self, repo_name: &str, task_id: &str, output: GitMergeOutput) -> (r: Result<
        (),
        Error,
    >) {
        self.config.save_git_merge_output(repo_name, output)
    }
}

/// Keeping what bringing a repository up to date gave remembers the branch before all others that
/// were remembered, without a second mention of it and within the limit, sets the branches last
/// used for the repository, and changes nothing that is known of another one.
pub proof fn law_branches_are_kept<S: ProgressStore, E: GitMergeExecutor>(
    before: Progress<S>,
    repo_name: &str,
    task_id: &str,
    output: GitMergeOutput,
    after: Progress<S>,
    r: Result<(), Error>,
    other: Seq<char>,
)
    requires
        <Progress<S> as DataContainer<GitMergeTask<E>>>::saves_output(
            &before,
            repo_name,
            task_id,
            output,
            &after,
            r,
        ),
        before.config@.repo_caches.contains_key(repo_name@),
        before.config@.sync_branch_history.no_duplicates(),
        other != repo_name@,
    ensures
        r is Ok,
        ({
            let history = before.config@.sync_branch_history;
            let branch = output.current_sync_branch@;
            let kept = after.config@.sync_branch_history;
            let all = seq![branch] + history.filter(|b: Seq<char>| b != branch);
            kept == all.take(
                if all.len() < task_containers::HISTORY_LIMIT {
                    all.len() as int
                } else {
                    task_containers::HISTORY_LIMIT as int
                },
            )
        }),
        after.config@.repo_caches.contains_key(repo_name@),
        after.config@.repo_caches[repo_name@].last_local_branch == output.current_local_branch@,
        after.config@.repo_caches[repo_name@].last_sync_branch == output.current_sync_branch@,
        after.config@.repo_caches.contains_key(other)
            == before.config@.repo_caches.contains_key(other),
        before.config@.repo_caches.contains_key(other) ==> after.config@.repo_caches[other]
            == before.config@.repo_caches[other],
        after.config@.completed_tasks == before.config@.completed_tasks,
{
    let history = before.config@.sync_branch_history;
    let branch = output.current_sync_branch@;
    task_containers::lemma_without_first(history, branch);
    let all = seq![branch] + history.filter(|b: Seq<char>| b != branch);
    assert(all.take(all.len() as int) =~= all);
}

/// A repository that was brought up to date without a failure is found to be so, and one that was
/// found so is left alone; one of which nothing is known cannot be.
pub proof fn law_successful_tasks_are_finished<S: ProgressStore, E: GitMergeExecutor>(
    task: &GitMergeTask<E>,
    repo_name: &str,
)
    ensures
        forall|c: &mut Progress<S>, r: Result<(), Error>| #[trigger]
            call_ensures(run_task::<GitMergeTask<E>, Progress<S>>, (task, c, repo_name), r) ==> {
                let was = c.config@.is_finished(repo_name@, "git_merge"@);
                &&& r is Ok ==> final(c).config@.is_finished(repo_name@, "git_merge"@)
                &&& was ==> r is Ok && *final(c) == *c
                &&& !was && !c.config@.repo_caches.contains_key(repo_name@) ==> r is Err
                    && *final(c) == *c
            },
{
}

} // verus!
