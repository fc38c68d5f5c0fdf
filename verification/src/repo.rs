//! Repositories: what they are called, how they get here and how they are kept up to date.

use crate::conanfile;
use crate::error::{Error, FileText};
use crate::paths::{self, PathStyle};
use crate::repo_config::{self, RepoConfig, RepoConfigView};
use crate::task::{CoreTask, TaskMeta};
use crate::text;
use vstd::prelude::*;

verus! {

/// The address without the space around it and the ending `.git`.
pub open spec fn bare_url(url: Seq<char>) -> Seq<char> {
    match text::before_suffix(text::trim_of(url), ".git"@) {
        Some(s) => s,
        None => text::trim_of(url),
    }
}

/// The name of a repository as its address gives it: what follows the last slash, and the last
/// colon too unless the address has a scheme. `None` where nothing does.
pub open spec fn name_in_url(url: Seq<char>) -> Option<Seq<char>> {
    let bare = bare_url(url);
    let has_scheme = !text::begins_with(bare, "git@"@) && text::contains_text(bare, "://"@);
    let path = if has_scheme {
        bare
    } else {
        text::after_last_of(bare, ':')
    };
    let name = text::after_last_of(path, '/');
    if name.len() == 0 {
        None
    } else {
        Some(name)
    }
}

/// The name of a repository as its address gives it. The address may be of the form
/// `https://host/user/repo.git`, `git@host:user/repo.git`, `git://host/user/repo`, or a path.
pub fn parse_repo_path_from_url(url: &str) -> (r: Option<String>)
    ensures
        text::opt_text(r) == name_in_url(url@),
{
    let trimmed = text::trim(url);
    let bare = match text::strip_suffix(trimmed.as_str(), ".git") {
        Some(s) => s,
        None => trimmed,
    };
    let has_scheme = !text::starts_with(bare.as_str(), "git@") && text::contains(
        bare.as_str(),
        "://",
    );
    let path = if has_scheme {
        bare
    } else {
        text::after_last(bare.as_str(), ':')
    };
    let name = text::after_last(path.as_str(), '/');
    if text::is_empty(name.as_str()) {
        None
    } else {
        Some(name)
    }
}

/// The name by which a repository is known: that of its package, or else that of its address.
pub open spec fn identification_of(recipe: FileText, url: Seq<char>) -> Option<Seq<char>> {
    match recipe {
        FileText::Text(content) => match conanfile::declared_name(content@, 0) {
            Some(name) => Some(name),
            None => name_in_url(url),
        },
        _ => name_in_url(url),
    }
}

/// The failure to find a name in an address.
pub open spec fn no_name_message(url: Seq<char>) -> Seq<char> {
    "无法从URL解析仓库名称: "@ + url
}

fn name_of_url(url: &str) -> (r: Result<String, Error>)
    ensures
        match r {
            Ok(name) => name_in_url(url@) == Some(name@),
            Err(e) => name_in_url(url@) is None && e.message@ == no_name_message(url@),
        },
{
    match parse_repo_path_from_url(url) {
        Some(name) => Ok(name),
        None => Err(Error::about("无法从URL解析仓库名称: ", url)),
    }
}

/// The name by which a repository with this recipe and address is known.
pub fn get_identification_name(recipe: &FileText, url: &str) -> (r: Result<String, Error>)
    ensures
        match r {
            Ok(name) => identification_of(*recipe, url@) == Some(name@),
            Err(e) => identification_of(*recipe, url@) is None && e.message@ == no_name_message(
                url@,
            ),
        },
{
    match recipe {
        FileText::Text(content) => {
            match conanfile::parse_package_name_from_content(content.as_str()) {
                Ok(name) => Ok(name),
                Err(_) => name_of_url(url),
            }
        },
        _ => name_of_url(url),
    }
}

/// A repository to be downloaded.
pub struct Download {
    /// The directory to run `git` in.
    pub directory: String,
    /// The arguments to run `git` with.
    pub arguments: Vec<String>,
    /// Where the repository will be.
    pub target: String,
}

/// What a repository needs to be there.
pub enum RepoStep {
    /// Nothing.
    Keep,
    /// To be looked for in the directory of this name, which is there.
    Adopt(Seq<char>),
    /// To be downloaded into a directory of this name.
    Fetch(Seq<char>),
    /// It cannot be there, with the reason.
    Refuse(Seq<char>),
}

/// What it takes to have the repository of an address below a directory; `present` holds the
/// paths that are there.
pub open spec fn download_step(
    style: char,
    url: Seq<char>,
    base: Seq<char>,
    present: Seq<Seq<char>>,
) -> RepoStep {
    match name_in_url(url) {
        None => RepoStep::Refuse(no_name_message(url)),
        Some(name) => if present.contains(paths::joined_path(style, base, name)) {
            RepoStep::Adopt(name)
        } else {
            RepoStep::Fetch(name)
        },
    }
}

/// What it takes to have a repository: nothing where its path is there; otherwise it must be
/// allowed to be downloaded.
pub open spec fn repo_step(
    style: char,
    config: RepoConfigView,
    base: Seq<char>,
    present: Seq<Seq<char>>,
) -> RepoStep {
    let path = paths::joined_path(style, base, config.path);
    if config.path.len() > 0 && present.contains(path) {
        RepoStep::Keep
    } else if config.auto_clone {
        download_step(style, config.url, base, present)
    } else if config.path.len() > 0 {
        RepoStep::Refuse(
            "Repository path does not exist and auto_clone is disabled: "@ + path,
        )
    } else {
        RepoStep::Refuse(
            "Repository path is empty and auto_clone is disabled for url: "@ + config.url,
        )
    }
}

/// The settings of a repository once it has what it needs: one that was looked for or downloaded is
/// in the directory of its name.
pub open spec fn after_step(config: RepoConfigView, step: RepoStep) -> RepoConfigView {
    match step {
        RepoStep::Adopt(name) => RepoConfigView { path: name, ..config },
        RepoStep::Fetch(name) => RepoConfigView { path: name, ..config },
        _ => config,
    }
}

/// The arguments with which `git` downloads a repository.
pub open spec fn clone_arguments(url: Seq<char>, name: Seq<char>) -> Seq<Seq<char>> {
    seq!["clone"@, "--recurse-submodules"@, url, name]
}

/// The download of the repository of an address into a directory of this name.
pub open spec fn is_download(
    d: Download,
    style: char,
    url: Seq<char>,
    base: Seq<char>,
    name: Seq<char>,
) -> bool {
    &&& d.directory@ == base
    &&& text::texts(d.arguments@) == clone_arguments(url, name)
    &&& d.target@ == paths::joined_path(style, base, name)
}

/// Where a repository is, or how to get it there.
pub enum Placement {
    /// In the directory of this name.
    There(String),
    /// It is to be downloaded into the directory of this name first.
    Missing(String, Download),
}

/// Where the repository of an address is below a directory, or how to get it there; `present`
/// holds the paths that are there.
pub fn download_repo_from_url(
    style: &PathStyle,
    url: &str,
    base: &str,
    present: &Vec<String>,
) -> (r: Result<Placement, Error>)
    ensures
        match download_step(style@, url@, base@, text::texts(present@)) {
            RepoStep::Refuse(reason) => r matches Err(e) && e.message@ == reason,
            RepoStep::Adopt(name) => r matches Ok(Placement::There(n)) && n@ == name,
            RepoStep::Fetch(name) => r matches Ok(Placement::Missing(n, d)) && n@ == name
                && is_download(d, style@, url@, base@, name),
            RepoStep::Keep => false,
        },
{
    let name = match name_of_url(url) {
        Ok(name) => name,
        Err(e) => {
            return Err(e);
        },
    };
    let target = paths::join(style, base, name.as_str());
    if text::texts_contain(present, target.as_str()) {
        return Ok(Placement::There(name));
    }
    let mut arguments: Vec<String> = Vec::new();
    text::push_text(&mut arguments, "clone".to_owned());
    text::push_text(&mut arguments, "--recurse-submodules".to_owned());
    text::push_text(&mut arguments, url.to_owned());
    text::push_text(&mut arguments, name.clone());
    assert(text::texts(arguments@) =~= clone_arguments(url@, name@));
    let download = Download { directory: base.to_owned(), arguments, target };
    Ok(Placement::Missing(name, download))
}

/// Sees to it that a repository is there: takes what is there already, and otherwise says what to
/// download. The path of the repository is then that of the download.
pub fn ensure_repo_preset(
    style: &PathStyle,
    repo_cfg: &mut RepoConfig,
    base: &str,
    present: &Vec<String>,
) -> (r: Result<Option<Download>, Error>)
    ensures
        ({
            let before = old(repo_cfg)@;
            let step = repo_step(style@, before, base@, text::texts(present@));
            &&& final(repo_cfg)@ == after_step(before, step)
            &&& match step {
                RepoStep::Refuse(reason) => r matches Err(e) && e.message@ == reason,
                RepoStep::Fetch(name) => r matches Ok(Some(d)) && is_download(
                    d,
                    style@,
                    before.url,
                    base@,
                    name,
                ),
                _ => r matches Ok(None),
            }
        }),
{
    if !text::is_empty(repo_cfg.path.as_str()) {
        let path = paths::join(style, base, repo_cfg.path.as_str());
        if text::texts_contain(present, path.as_str()) {
            return Ok(None);
        }
        if !repo_cfg.auto_clone {
            return Err(
                Error::about(
                    "Repository path does not exist and auto_clone is disabled: ",
                    path.as_str(),
                ),
            );
        }
    } else if !repo_cfg.auto_clone {
        return Err(
            Error::about(
                "Repository path is empty and auto_clone is disabled for url: ",
                repo_cfg.url.as_str(),
            ),
        );
    }
    match download_repo_from_url(style, repo_cfg.url.as_str(), base, present) {
        Ok(Placement::There(name)) => {
            repo_cfg.path = name;
            Ok(None)
        },
        Ok(Placement::Missing(name, download)) => {
            repo_cfg.path = name;
            Ok(Some(download))
        },
        Err(e) => Err(e),
    }
}

/// The repository needs nothing more.
pub open spec fn is_settled(step: RepoStep) -> bool {
    step is Keep || step is Adopt
}

/// What the repository at `i` needs: nothing where it takes no part, unless all are looked after.
pub open spec fn step_at(
    style: char,
    configs: Seq<RepoConfigView>,
    base: Seq<char>,
    present: Seq<Seq<char>>,
    all: bool,
    i: int,
) -> RepoStep {
    if all || configs[i].enable {
        repo_step(style, configs[i], base, present)
    } else {
        RepoStep::Keep
    }
}

/// The first repository from `from` on that needs something, or the number of repositories.
pub open spec fn first_unsettled(
    style: char,
    configs: Seq<RepoConfigView>,
    base: Seq<char>,
    present: Seq<Seq<char>>,
    all: bool,
    from: int,
) -> int
    decreases configs.len() - from,
{
    if from >= configs.len() || !is_settled(step_at(style, configs, base, present, all, from)) {
        from
    } else {
        first_unsettled(style, configs, base, present, all, from + 1)
    }
}

/// The settings once the first `n` repositories are settled.
pub open spec fn settled_until(
    style: char,
    configs: Seq<RepoConfigView>,
    base: Seq<char>,
    present: Seq<Seq<char>>,
    all: bool,
    n: int,
) -> Seq<RepoConfigView> {
    Seq::new(
        configs.len(),
        |i: int|
            if i < n {
                after_step(configs[i], step_at(style, configs, base, present, all, i))
            } else {
                configs[i]
            },
    )
}

/// What becomes of a list of repositories: those before the first that needs something are
/// settled, and that one is told with what it needs, and has the path of its download.
pub open spec fn settles(
    before: Seq<RepoConfigView>,
    after: Seq<RepoConfigView>,
    r: Result<Option<Download>, Error>,
    style: char,
    base: Seq<char>,
    present: Seq<Seq<char>>,
    all: bool,
) -> bool {
    let n = first_unsettled(style, before, base, present, all, 0);
    &&& after == settled_until(style, before, base, present, all, n + 1)
    &&& if n >= before.len() {
        r matches Ok(None)
    } else {
        match step_at(style, before, base, present, all, n) {
            RepoStep::Refuse(reason) => r matches Err(e) && e.message@ == reason,
            RepoStep::Fetch(name) => r matches Ok(Some(d)) && is_download(
                d,
                style,
                before[n].url,
                base,
                name,
            ),
            _ => false,
        }
    }
}

fn ensure_one_by_one(
    style: &PathStyle,
    repo_configs: &mut Vec<RepoConfig>,
    base: &str,
    present: &Vec<String>,
    all: bool,
) -> (r: Result<Option<Download>, Error>)
    ensures
        settles(
            repo_config::config_views(old(repo_configs)@),
            repo_config::config_views(final(repo_configs)@),
            r,
            style@,
            base@,
            text::texts(present@),
            all,
        ),
{
    let ghost before = repo_config::config_views(repo_configs@);
    let ghost there = text::texts(present@);
    let count = repo_configs.len();
    assert(before =~= settled_until(style@, before, base@, there, all, 0));
    for i in 0..count
        invariant
            before == repo_config::config_views(old(repo_configs)@),
            count == before.len(),
            repo_configs@.len() == count,
            there == text::texts(present@),
            repo_config::config_views(repo_configs@) == settled_until(
                style@,
                before,
                base@,
                there,
                all,
                i as int,
            ),
            first_unsettled(style@, before, base@, there, all, 0) == first_unsettled(
                style@,
                before,
                base@,
                there,
                all,
                i as int,
            ),
    {
        let ghost was = repo_configs@;
        assert(repo_config::config_views(was)[i as int] == before[i as int]);
        if all || repo_configs[i].enable {
            let outcome = ensure_repo_preset(style, &mut repo_configs[i], base, present);
            assert(repo_config::config_views(repo_configs@) =~= repo_config::config_views(
                was,
            ).update(i as int, repo_configs@[i as int]@));
            match outcome {
                Ok(None) => {},
                Ok(Some(download)) => {
                    assert(repo_config::config_views(repo_configs@) =~= settled_until(
                        style@,
                        before,
                        base@,
                        there,
                        all,
                        i + 1,
                    ));
                    return Ok(Some(download));
                },
                Err(e) => {
                    assert(repo_config::config_views(repo_configs@) =~= settled_until(
                        style@,
                        before,
                        base@,
                        there,
                        all,
                        i + 1,
                    ));
                    return Err(e);
                },
            }
        }
        assert(repo_config::config_views(repo_configs@) =~= settled_until(
            style@,
            before,
            base@,
            there,
            all,
            i + 1,
        ));
    }
    assert(settled_until(style@, before, base@, there, all, count as int) =~= settled_until(
        style@,
        before,
        base@,
        there,
        all,
        count + 1,
    ));
    Ok(None)
}

/// Sees to it that the repositories of a list are there, one after the other: takes what is there
/// already, and says what to download for the first that is not. A repository that cannot be
/// there ends it.
pub fn ensure_repositories(
    style: &PathStyle,
    repo_configs: &mut Vec<RepoConfig>,
    base: &str,
    present: &Vec<String>,
) -> (r: Result<Option<Download>, Error>)
    ensures
        settles(
            repo_config::config_views(old(repo_configs)@),
            repo_config::config_views(final(repo_configs)@),
            r,
            style@,
            base@,
            text::texts(present@),
            true,
        ),
{
    ensure_one_by_one(style, repo_configs, base, present, true)
}

/// As [`ensure_repositories`], for those repositories of the list that take part.
pub fn ensure_enabled_repositories(
    style: &PathStyle,
    repo_configs: &mut Vec<RepoConfig>,
    base: &str,
    present: &Vec<String>,
) -> (r: Result<Option<Download>, Error>)
    ensures
        settles(
            repo_config::config_views(old(repo_configs)@),
            repo_config::config_views(final(repo_configs)@),
            r,
            style@,
            base@,
            text::texts(present@),
            false,
        ),
{
    ensure_one_by_one(style, repo_configs, base, present, false)
}

/// The paths of which [`ensure_repo_preset`] wants to know whether they are there.
pub fn wanted_paths(style: &PathStyle, repo_cfg: &RepoConfig, base: &str) -> (r: Vec<String>)
    ensures
        text::texts(r@) == paths_asked_for(style@, repo_cfg@, base@),
{
    let mut r: Vec<String> = Vec::new();
    text::push_text(&mut r, paths::join(style, base, repo_cfg.path.as_str()));
    match parse_repo_path_from_url(repo_cfg.url.as_str()) {
        Some(name) => text::push_text(&mut r, paths::join(style, base, name.as_str())),
        None => {},
    }
    assert(text::texts(r@) =~= paths_asked_for(style@, repo_cfg@, base@));
    r
}

/// The path of a repository and that of its download.
pub open spec fn paths_asked_for(style: char, config: RepoConfigView, base: Seq<char>) -> Seq<
    Seq<char>,
> {
    seq![paths::joined_path(style, base, config.path)] + match name_in_url(config.url) {
        Some(name) => seq![paths::joined_path(style, base, name)],
        None => Seq::empty(),
    }
}

/// Whether a repository is there rests on nothing but the paths that are asked for.
pub proof fn law_only_wanted_paths_count(
    style: char,
    config: RepoConfigView,
    base: Seq<char>,
    present: Seq<Seq<char>>,
    others: Seq<Seq<char>>,
)
    requires
        forall|p: Seq<char>|
            paths_asked_for(style, config, base).contains(p) ==> (present.contains(p)
                <==> #[trigger] others.contains(p)),
    ensures
        repo_step(style, config, base, present) == repo_step(style, config, base, others),
{
    let asked = paths_asked_for(style, config, base);
    assert(asked[0] == paths::joined_path(style, base, config.path));
    assert(asked.contains(asked[0]));
    assert(present.contains(asked[0]) <==> others.contains(asked[0]));
    if name_in_url(config.url) is Some {
        assert(asked[1] == paths::joined_path(style, base, name_in_url(config.url)->0));
        assert(asked.contains(asked[1]));
        assert(present.contains(asked[1]) <==> others.contains(asked[1]));
    }
}

/// Once a repository was downloaded, it has the path of the download, and asking again keeps it.
pub proof fn law_download_settles(
    style: char,
    config: RepoConfigView,
    base: Seq<char>,
    present: Seq<Seq<char>>,
    later: Seq<Seq<char>>,
    name: Seq<char>,
)
    requires
        repo_step(style, config, base, present) == RepoStep::Fetch(name),
        later.contains(paths::joined_path(style, base, name)),
    ensures
        after_step(config, RepoStep::Fetch(name)).path == name,
        repo_step(style, after_step(config, RepoStep::Fetch(name)), base, later) is Keep,
{
}

/// A repository that was taken from where it is stays there.
pub proof fn law_settled_repository_is_kept(
    style: char,
    config: RepoConfigView,
    base: Seq<char>,
    present: Seq<Seq<char>>,
)
    requires
        is_settled(repo_step(style, config, base, present)),
    ensures
        repo_step(
            style,
            after_step(config, repo_step(style, config, base, present)),
            base,
            present,
        ) is Keep,
{
}

/// A repository to bring up to date.
pub struct GitMergeInput {
    pub repo_path: String,
    /// The branch the repository was on last time.
    pub last_local_branch: String,
    /// The branch it was brought up to date with last time.
    pub last_sync_branch: String,
    /// The branches repositories were brought up to date with, the latest first.
    pub sync_branch_history: Vec<String>,
}

/// What bringing a repository up to date gives.
pub struct GitMergeOutput {
    /// The branch the repository is on.
    pub current_local_branch: String,
    /// The branch it was brought up to date with.
    pub current_sync_branch: String,
}

/// Runs the commands that bring a repository up to date, and asks the user where it must.
pub trait GitMergeExecutor {
    fn merge(&self, input: GitMergeInput) -> (r: Result<GitMergeOutput, Error>);
}

/// Brings repositories up to date.
pub struct GitMergeTask<E> {
    pub executor: E,
}

impl<E> TaskMeta for GitMergeTask<E> {
    fn id(&self) -> (r: &'static str)
        ensures
            r@ == "git_merge"@,
    {
        "git_merge"
    }
}

impl<E: GitMergeExecutor> CoreTask for GitMergeTask<E> {
    type Input<'a> = GitMergeInput;

    type Output = GitMergeOutput;

    open spec fn executes<'a>(
        &self,
        input: GitMergeInput,
        r: Result<GitMergeOutput, Error>,
    ) -> bool {
        call_ensures(E::merge, (&self.executor, input), r)
    }

    fn execute<'a>(&self, input: GitMergeInput) -> (r: Result<GitMergeOutput, Error>) {
        self.executor.merge(input)
    }
}

/// A question to the user about the branch to bring a repository up to date with.
pub enum SyncPrompt {
    /// To pick one of these items, of which this one is marked at first.
    Pick { items: Vec<String>, marked: usize },
    /// To enter a name, with nothing for going back.
    Enter,
    /// To enter a name in reply to this text; there may be one to fall back to.
    EnterFirst { prompt: String, fallback: Option<String> },
}

/// What the user answers.
pub enum SyncAnswer {
    /// The item at this position.
    Picked(usize),
    /// This text.
    Entered(String),
    /// Nothing.
    Cancelled,
}

/// What follows from an answer.
pub enum SyncStep {
    /// This is the branch.
    Done(String),
    /// There is something else to ask.
    Ask(SyncPrompt),
    /// There is no branch.
    Fail(Error),
}

/// How a branch of the history is shown.
pub open spec fn branch_item(branch: Seq<char>, last: Seq<char>) -> Seq<char> {
    if branch == last {
        branch + " (上次使用)"@
    } else {
        branch
    }
}

/// The items to pick from: the history, and one for entering another name.
pub open spec fn branch_items(history: Seq<Seq<char>>, last: Seq<char>) -> Seq<Seq<char>> {
    history.map_values(|b: Seq<char>| branch_item(b, last)).push("手动输入新分支名称..."@)
}

/// The item that is marked at first: the branch of last time, or the first one.
pub open spec fn marked_item(history: Seq<Seq<char>>, last: Seq<char>) -> int {
    match conanfile::last_named(history, last) {
        Some(i) => i,
        None => 0,
    }
}

/// The question that is asked first.
pub open spec fn is_first_prompt(
    prompt: SyncPrompt,
    last: Seq<char>,
    history: Seq<Seq<char>>,
) -> bool {
    if history.len() > 0 {
        prompt matches SyncPrompt::Pick { items, marked } && text::texts(items@) == branch_items(
            history,
            last,
        ) && marked == marked_item(history, last)
    } else if last.len() > 0 {
        prompt matches SyncPrompt::EnterFirst { prompt, fallback } && prompt@
            == "请输入要同步的分支名称 (默认: "@ + last + ")"@ && text::opt_text(fallback) == Some(
            last,
        )
    } else {
        prompt matches SyncPrompt::EnterFirst { prompt, fallback } && prompt@
            == "请输入要同步的分支名称"@ && fallback is None
    }
}

/// The question that is asked first about the branch to bring a repository up to date with.
pub fn interactive_select_sync_branch(last_sync_branch: &str, history: &Vec<String>) -> (r:
    SyncPrompt)
    ensures
        is_first_prompt(r, last_sync_branch@, text::texts(history@)),
{
    if history.len() == 0 {
        if text::is_empty(last_sync_branch) {
            return SyncPrompt::EnterFirst {
                prompt: "请输入要同步的分支名称".to_owned(),
                fallback: None,
            };
        }
        let mut prompt = "请输入要同步的分支名称 (默认: ".to_owned();
        prompt.append(last_sync_branch);
        prompt.append(")");
        return SyncPrompt::EnterFirst { prompt, fallback: Some(last_sync_branch.to_owned()) };
    }
    let ghost all = text::texts(history@);
    let mut items: Vec<String> = Vec::new();
    let mut marked: usize = 0;
    for i in 0..history.len()
        invariant
            all == text::texts(history@),
            text::texts(items@) == all.take(i as int).map_values(
                |b: Seq<char>| branch_item(b, last_sync_branch@),
            ),
            marked == marked_item(all.take(i as int), last_sync_branch@),
    {
        let ghost f = |b: Seq<char>| branch_item(b, last_sync_branch@);
        let mut item = history[i].clone();
        if text::same_text(history[i].as_str(), last_sync_branch) {
            marked = i;
            item.append(" (上次使用)");
        }
        text::push_text(&mut items, item);
        proof {
            assert(all.take(i + 1).drop_last() =~= all.take(i as int));
            assert(all.take(i + 1).last() == history@[i as int]@);
            assert(text::texts(items@) =~= all.take(i + 1).map_values(f));
        }
    }
    assert(all.take(all.len() as int) =~= all);
    text::push_text(&mut items, "手动输入新分支名称...".to_owned());
    SyncPrompt::Pick { items, marked }
}

/// A branch as it was entered, without the space around it.
pub open spec fn entered_branch(s: Seq<char>) -> Option<Seq<char>> {
    if text::trim_of(s).len() == 0 {
        None
    } else {
        Some(text::trim_of(s))
    }
}

/// What follows from the answer to a question.
pub open spec fn is_step_after(
    step: SyncStep,
    last: Seq<char>,
    history: Seq<Seq<char>>,
    prompt: SyncPrompt,
    answer: SyncAnswer,
) -> bool {
    match (prompt, answer) {
        (SyncPrompt::Pick { .. }, SyncAnswer::Picked(i)) => if i < history.len() {
            step matches SyncStep::Done(b) && b@ == history[i as int]
        } else {
            step matches SyncStep::Ask(p) && p is Enter
        },
        (SyncPrompt::Enter, SyncAnswer::Entered(s)) => match entered_branch(s@) {
            Some(branch) => step matches SyncStep::Done(b) && b@ == branch,
            None => step matches SyncStep::Ask(p) && is_first_prompt(p, last, history),
        },
        (SyncPrompt::EnterFirst { .. }, SyncAnswer::Entered(s)) => match entered_branch(s@) {
            Some(branch) => step matches SyncStep::Done(b) && b@ == branch,
            None => step matches SyncStep::Fail(e) && e.message@ == "用户输入为空"@,
        },
        _ => step matches SyncStep::Fail(e) && e.message@ == "用户取消了选择"@,
    }
}

/// What follows from the answer to a question about the branch. An answer that is none to the
/// question counts as the wish to stop.
pub fn after_answer(
    last_sync_branch: &str,
    history: &Vec<String>,
    prompt: &SyncPrompt,
    answer: SyncAnswer,
) -> (r: SyncStep)
    ensures
        is_step_after(r, last_sync_branch@, text::texts(history@), *prompt, answer),
{
    match (prompt, answer) {
        (SyncPrompt::Pick { .. }, SyncAnswer::Picked(i)) => {
            if i < history.len() {
                SyncStep::Done(history[i].clone())
            } else {
                SyncStep::Ask(SyncPrompt::Enter)
            }
        },
        (SyncPrompt::Enter, SyncAnswer::Entered(s)) => {
            let branch = text::trim(s.as_str());
            if text::is_empty(branch.as_str()) {
                SyncStep::Ask(interactive_select_sync_branch(last_sync_branch, history))
            } else {
                SyncStep::Done(branch)
            }
        },
        (SyncPrompt::EnterFirst { .. }, SyncAnswer::Entered(s)) => {
            let branch = text::trim(s.as_str());
            if text::is_empty(branch.as_str()) {
                SyncStep::Fail(Error::new("用户输入为空"))
            } else {
                SyncStep::Done(branch)
            }
        },
        _ => SyncStep::Fail(Error::new("用户取消了选择")),
    }
}

/// The branch to bring a repository up to date with: that of last time where the repository is
/// still on the same branch, and otherwise the one that the user names.
pub fn smart_merge_branch(merge_input: &GitMergeInput, current_branch: &str) -> (r: SyncStep)
    ensures
        if current_branch@ == merge_input.last_local_branch@
            && merge_input.last_sync_branch@.len() > 0 {
            r matches SyncStep::Done(b) && b@ == merge_input.last_sync_branch@
        } else {
            r matches SyncStep::Ask(p) && is_first_prompt(
                p,
                merge_input.last_sync_branch@,
                text::texts(merge_input.sync_branch_history@),
            )
        },
{
    if text::same_text(current_branch, merge_input.last_local_branch.as_str()) && !text::is_empty(
        merge_input.last_sync_branch.as_str(),
    ) {
        return SyncStep::Done(merge_input.last_sync_branch.clone());
    }
    SyncStep::Ask(
        interactive_select_sync_branch(
            merge_input.last_sync_branch.as_str(),
            &merge_input.sync_branch_history,
        ),
    )
}

/// A run of `git` in a repository.
pub struct GitCommand {
    pub arguments: Vec<String>,
    /// What is said where it fails.
    pub failure: String,
}

/// The content of a [`GitCommand`].
pub struct GitCommandView {
    pub arguments: Seq<Seq<char>>,
    pub failure: Seq<char>,
}

impl View for GitCommand {
    type V = GitCommandView;

    open spec fn view(&self) -> GitCommandView {
        GitCommandView { arguments: text::texts(self.arguments@), failure: self.failure@ }
    }
}

/// What is said where a run of `git` in a repository fails.
pub open spec fn git_failure(what: Seq<char>, repo_dir: Seq<char>) -> Seq<char> {
    "Git "@ + what + " failed for repo '"@ + repo_dir + "'"@
}

/// The run of `git` that gets a branch of a remote: into the branch the repository is on where
/// they have the same name, and otherwise into its own.
pub open spec fn getting_command(
    repo_dir: Seq<char>,
    remote: Seq<char>,
    branch: Seq<char>,
    current: Seq<char>,
) -> GitCommandView {
    if current == branch {
        GitCommandView {
            arguments: seq!["pull"@, "--recurse-submodules"@, remote, branch],
            failure: git_failure("pull"@, repo_dir),
        }
    } else {
        GitCommandView {
            arguments: seq!["fetch"@, remote, branch + ":"@ + branch],
            failure: git_failure("fetch"@, repo_dir),
        }
    }
}

/// The runs of `git` that get a branch from the remote that its name begins with, if it is one.
pub open spec fn getting_commands(
    repo_dir: Seq<char>,
    sync_branch: Seq<char>,
    remotes: Seq<Seq<char>>,
    current: Seq<char>,
) -> Seq<GitCommandView> {
    match text::split_once_of(sync_branch, '/') {
        Some((remote, branch)) => if remotes.contains(remote) {
            seq![getting_command(repo_dir, remote, branch, current)]
        } else {
            Seq::empty()
        },
        None => Seq::empty(),
    }
}

/// The runs of `git` that bring a repository up to date with a branch.
pub open spec fn merge_commands(
    repo_dir: Seq<char>,
    sync_branch: Seq<char>,
    remotes: Seq<Seq<char>>,
    current: Seq<char>,
) -> Seq<GitCommandView> {
    getting_commands(repo_dir, sync_branch, remotes, current) + seq![
        GitCommandView {
            arguments: seq!["merge"@, sync_branch],
            failure: git_failure("merge"@, repo_dir),
        },
        GitCommandView {
            arguments: seq!["submodule"@, "update"@, "--recursive"@],
            failure: git_failure("submodule update"@, repo_dir),
        },
    ]
}

/// The contents of some runs of `git`.
pub open spec fn command_views(commands: Seq<GitCommand>) -> Seq<GitCommandView> {
    Seq::new(commands.len(), |i: int| commands[i]@)
}

fn failure_text(what: &str, repo_dir: &str) -> (r: String)
    ensures
        r@ == git_failure(what@, repo_dir@),
{
    let mut s = "Git ".to_owned();
    s.append(what);
    s.append(" failed for repo '");
    s.append(repo_dir);
    s.append("'");
    s
}

fn getting(repo_dir: &str, remote: &str, branch: &str, current_branch: &str) -> (r: GitCommand)
    ensures
        r@ == getting_command(repo_dir@, remote@, branch@, current_branch@),
{
    let mut arguments: Vec<String> = Vec::new();
    if text::same_text(current_branch, branch) {
        text::push_text(&mut arguments, "pull".to_owned());
        text::push_text(&mut arguments, "--recurse-submodules".to_owned());
        text::push_text(&mut arguments, remote.to_owned());
        text::push_text(&mut arguments, branch.to_owned());
        assert(text::texts(arguments@) =~= seq!["pull"@, "--recurse-submodules"@, remote@, branch@]);
        GitCommand { arguments, failure: failure_text("pull", repo_dir) }
    } else {
        let mut refs = branch.to_owned();
        refs.append(":");
        refs.append(branch);
        text::push_text(&mut arguments, "fetch".to_owned());
        text::push_text(&mut arguments, remote.to_owned());
        text::push_text(&mut arguments, refs);
        assert(text::texts(arguments@) =~= seq!["fetch"@, remote@, branch@ + ":"@ + branch@]);
        GitCommand { arguments, failure: failure_text("fetch", repo_dir) }
    }
}

/// The runs of `git`, in this order, that bring a repository up to date with a branch; `remotes`
/// are those that the repository has. A repository that is not there is refused.
pub fn inner_merge_branch(
    repo_dir: &str,
    repo_exists: bool,
    sync_branch: &str,
    remotes: &Vec<String>,
    current_branch: &str,
) -> (r: Result<Vec<GitCommand>, Error>)
    ensures
        match r {
            Ok(commands) => repo_exists && command_views(commands@) == merge_commands(
                repo_dir@,
                sync_branch@,
                text::texts(remotes@),
                current_branch@,
            ),
            Err(e) => !repo_exists && e.message@ == "Repo path does not exist: "@ + repo_dir@,
        },
{
    if !repo_exists {
        return Err(Error::about("Repo path does not exist: ", repo_dir));
    }
    let mut commands: Vec<GitCommand> = Vec::new();
    match text::split_once(sync_branch, '/') {
        Some((remote, branch)) => {
            if text::texts_contain(remotes, remote.as_str()) {
                commands.push(
                    getting(repo_dir, remote.as_str(), branch.as_str(), current_branch),
                );
            }
        },
        None => {},
    }
    assert(command_views(commands@) =~= getting_commands(
        repo_dir@,
        sync_branch@,
        text::texts(remotes@),
        current_branch@,
    ));
    let mut merge: Vec<String> = Vec::new();
    text::push_text(&mut merge, "merge".to_owned());
    text::push_text(&mut merge, sync_branch.to_owned());
    assert(text::texts(merge@) =~= seq!["merge"@, sync_branch@]);
    let mut update: Vec<String> = Vec::new();
    text::push_text(&mut update, "submodule".to_owned());
    text::push_text(&mut update, "update".to_owned());
    text::push_text(&mut update, "--recursive".to_owned());
    assert(text::texts(update@) =~= seq!["submodule"@, "update"@, "--recursive"@]);
    let ghost first = commands@;
    commands.push(GitCommand { arguments: merge, failure: failure_text("merge", repo_dir) });
    commands.push(
        GitCommand { arguments: update, failure: failure_text("submodule update", repo_dir) },
    );
    assert(command_views(commands@) =~= command_views(first) + seq![
        commands@[first.len() as int]@,
        commands@[first.len() as int + 1]@,
    ]);
    Ok(commands)
}

} // verus!
