//! What holds of repositories: how they are named, fetched and brought up to date.

use crate::conanfile;
use crate::error::{Error, FileText};
use crate::paths::{self, PathStyle};
use crate::repo::{
    self, Download, GitCommand, GitMergeInput, Placement, SyncAnswer, SyncPrompt, SyncStep,
};
use crate::repo_config::{self, RepoConfig};
use crate::text;
use crate::text_laws;
use vstd::prelude::*;

verus! {

/// The address begins with a scheme.
pub open spec fn is_schemed(bare: Seq<char>) -> bool {
    &&& exists|before: Seq<char>, after: Seq<char>| bare == #[trigger] (before + "://"@ + after)
    &&& !exists|after: Seq<char>| bare == #[trigger] ("git@"@ + after)
}

/// The name of a repository is all that follows the last slash of its address, the ending `.git`
/// and white space around it aside. Where the address has no scheme, a colon separates as well.
pub proof fn law_repository_name_is_read(
    url: &str,
    front: Seq<char>,
    name: Seq<char>,
    r: Option<String>,
)
    requires
        text::trim_of(url@) == front + name + ".git"@ || (text::trim_of(url@) == front + name
            && !text::ends_in(front + name, ".git"@)),
        text_laws::lacks(name, '/'),
        !is_schemed(front + name) ==> text_laws::lacks(name, ':'),
        front.len() == 0 || front.last() == '/' || (front.last() == ':' && !is_schemed(
            front + name,
        )),
        call_ensures(repo::parse_repo_path_from_url, (url,), r),
    ensures
        name.len() > 0 ==> (r matches Some(found) && found@ == name),
        name.len() == 0 ==> r is None,
{
    let bare = front + name;
    let trimmed = text::trim_of(url@);
    text_laws::law_affixes(Seq::empty(), bare, ".git"@);
    assert(repo::bare_url(url@) == bare);
    text_laws::law_containing(bare, "://"@);
    text_laws::law_containing(bare, "git@"@);
    if is_schemed(bare) {
        lemma_behind_slash(front, name);
    } else {
        lemma_behind_colon(front, name);
    }
}

proof fn lemma_behind_colon(front: Seq<char>, name: Seq<char>)
    requires
        text_laws::lacks(name, '/'),
        text_laws::lacks(name, ':'),
        front.len() > 0 ==> front.last() == '/' || front.last() == ':',
    ensures
        text::after_last_of(text::after_last_of(front + name, ':'), '/') == name,
{
    let bare = front + name;
    text::lemma_last_index(bare, ':');
    if front.len() > 0 {
        assert(bare[front.len() - 1] == front.last());
    }
    match text::last_index(bare, ':') {
        Some(i) => {
            if i >= front.len() {
                assert(bare[i] == name[i - front.len()]);
            }
            let rest = front.skip(i + 1);
            assert(bare.skip(i + 1) =~= rest + name);
            if rest.len() > 0 {
                assert(rest.last() == front.last());
            }
            lemma_behind_slash(rest, name);
        },
        None => {
            lemma_behind_slash(front, name);
        },
    }
}

proof fn lemma_behind_slash(front: Seq<char>, name: Seq<char>)
    requires
        text_laws::lacks(name, '/'),
        front.len() > 0 ==> front.last() == '/',
    ensures
        text::after_last_of(front + name, '/') == name,
{
    if front.len() > 0 {
        text_laws::law_after_the_last(front.drop_last(), '/', name);
        assert(front.drop_last() + seq!['/'] + name =~= front + name);
    } else {
        text_laws::law_after_the_last(front, '/', name);
        assert(front + name =~= name);
    }
}

/// A repository is known by the name in its recipe, and by that in its address exactly where the
/// recipe gives none or is not to be read.
pub proof fn law_recipe_names_the_repository(
    recipe: &FileText,
    content: &str,
    url: &str,
    in_recipe: Result<String, conanfile::ConanfileError>,
    in_url: Option<String>,
    r: Result<String, Error>,
)
    requires
        recipe matches FileText::Text(t) ==> t@ == content@,
        call_ensures(conanfile::parse_package_name_from_content, (content,), in_recipe),
        call_ensures(repo::parse_repo_path_from_url, (url,), in_url),
        call_ensures(repo::get_identification_name, (recipe, url), r),
    ensures
        if *recipe is Text && in_recipe is Ok {
            r matches Ok(name) && name@ == in_recipe->Ok_0@
        } else {
            match in_url {
                Some(found) => r matches Ok(name) && name@ == found@,
                None => r is Err,
            }
        },
{
}

/// The repository of an address belongs into the directory of its name: it is taken from there
/// where that is there, and otherwise cloned into it with its submodules.
pub proof fn law_missing_repositories_are_cloned(
    style: &PathStyle,
    url: &str,
    base: &str,
    present: &Vec<String>,
    in_url: Option<String>,
    r: Result<Placement, Error>,
)
    requires
        call_ensures(repo::parse_repo_path_from_url, (url,), in_url),
        call_ensures(repo::download_repo_from_url, (style, url, base, present), r),
    ensures
        r is Err <==> in_url is None,
        r matches Ok(Placement::There(name)) ==> name@ == in_url->0@ && text::texts(
            present@,
        ).contains(paths::joined_path(style@, base@, name@)),
        r matches Ok(Placement::Missing(name, d)) ==> {
            &&& name@ == in_url->0@
            &&& !text::texts(present@).contains(paths::joined_path(style@, base@, name@))
            &&& d.directory@ == base@
            &&& d.target@ == paths::joined_path(style@, base@, name@)
            &&& text::texts(d.arguments@) == seq![
                "clone"@,
                "--recurse-submodules"@,
                url@,
                name@,
            ]
        },
{
}

/// The repository with these settings is looked for at its own path first; only where it is not
/// there and may be cloned does its address decide. Nothing but its path changes.
pub proof fn law_repositories_are_placed(
    style: &PathStyle,
    base: &str,
    present: &Vec<String>,
    url: &str,
    placed: Result<Placement, Error>,
)
    requires
        call_ensures(repo::download_repo_from_url, (style, url, base, present), placed),
    ensures
        forall|c: &mut RepoConfig, r: Result<Option<Download>, Error>| #[trigger]
            call_ensures(repo::ensure_repo_preset, (style, c, base, present), r) && c@.url == url@
                ==> {
                let home = paths::joined_path(style@, base@, c@.path);
                let is_home = c@.path.len() > 0 && text::texts(present@).contains(home);
                &&& final(c)@ == repo_config::RepoConfigView { path: final(c)@.path, ..c@ }
                &&& is_home ==> r == Ok::<Option<Download>, Error>(None) && final(c)@.path
                    == c@.path
                &&& !is_home && !c@.auto_clone ==> r is Err && final(c)@.path == c@.path
                &&& !is_home && c@.auto_clone ==> match placed {
                    Err(_) => r is Err && final(c)@.path == c@.path,
                    Ok(Placement::There(name)) => r == Ok::<Option<Download>, Error>(None)
                        && final(c)@.path == name@,
                    Ok(Placement::Missing(name, d)) => final(c)@.path == name@ && match r {
                        Ok(Some(e)) => e.directory@ == d.directory@ && e.target@ == d.target@
                            && text::texts(e.arguments@) == text::texts(d.arguments@),
                        _ => false,
                    },
                }
            },
{
}

/// The repository with these settings is where it belongs, or can be taken from where it is.
pub open spec fn is_in_place(
    style: char,
    config: repo_config::RepoConfigView,
    base: Seq<char>,
    present: Seq<Seq<char>>,
) -> bool {
    ||| config.path.len() > 0 && present.contains(paths::joined_path(style, base, config.path))
    ||| config.auto_clone && repo::name_in_url(config.url) is Some && present.contains(
        paths::joined_path(style, base, repo::name_in_url(config.url)->0),
    )
}

proof fn lemma_unsettled(
    style: char,
    configs: Seq<repo_config::RepoConfigView>,
    base: Seq<char>,
    present: Seq<Seq<char>>,
    all: bool,
    from: int,
)
    requires
        0 <= from <= configs.len(),
    ensures
        ({
            let n = repo::first_unsettled(style, configs, base, present, all, from);
            &&& from <= n <= configs.len()
            &&& forall|i: int|
                from <= i < n ==> (all || (#[trigger] configs[i]).enable) ==> is_in_place(
                    style,
                    configs[i],
                    base,
                    present,
                )
            &&& n < configs.len() ==> (all || configs[n].enable) && !is_in_place(
                style,
                configs[n],
                base,
                present,
            )
        }),
    decreases configs.len() - from,
{
    if from < configs.len() && repo::is_settled(
        repo::step_at(style, configs, base, present, all, from),
    ) {
        lemma_unsettled(style, configs, base, present, all, from + 1);
    }
}

/// Of the repositories `before`, the outcome is that all which take part are in place, or it is
/// about the first that is not; those behind that one are left alone, as are those without part.
pub open spec fn are_seen_to(
    style: char,
    before: Seq<repo_config::RepoConfigView>,
    after: Seq<repo_config::RepoConfigView>,
    base: Seq<char>,
    present: Seq<Seq<char>>,
    all: bool,
    r: Result<Option<Download>, Error>,
) -> bool {
    &&& after.len() == before.len()
    &&& forall|i: int|
        0 <= i < before.len() ==> (#[trigger] after[i]) == repo_config::RepoConfigView {
            path: after[i].path,
            ..before[i]
        }
    &&& forall|i: int|
        0 <= i < before.len() && !(all || (#[trigger] before[i]).enable) ==> after[i] == before[i]
    &&& r == Ok::<Option<Download>, Error>(None) <==> forall|i: int|
        0 <= i < before.len() ==> (all || (#[trigger] before[i]).enable) ==> is_in_place(
            style,
            before[i],
            base,
            present,
        )
    &&& r == Ok::<Option<Download>, Error>(None) ==> forall|i: int|
        0 <= i < before.len() && (all || (#[trigger] before[i]).enable) ==> present.contains(
            paths::joined_path(style, base, after[i].path),
        )
    &&& forall|n: int|
        #![trigger before[n]]
        0 <= n < before.len() && (all || before[n].enable) && !is_in_place(
            style,
            before[n],
            base,
            present,
        ) && (forall|i: int|
            0 <= i < n ==> (all || (#[trigger] before[i]).enable) ==> is_in_place(
                style,
                before[i],
                base,
                present,
            )) ==> {
            &&& forall|i: int| n < i < before.len() ==> #[trigger] after[i] == before[i]
            &&& forall|i: int|
                0 <= i < n && (all || (#[trigger] before[i]).enable) ==> present.contains(
                    paths::joined_path(style, base, after[i].path),
                )
            &&& r is Ok <==> before[n].auto_clone && repo::name_in_url(before[n].url) is Some
            &&& r matches Ok(Some(d)) ==> d.directory@ == base && d.target@ == paths::joined_path(
                style,
                base,
                after[n].path,
            ) && Some(after[n].path) == repo::name_in_url(before[n].url)
                && text::texts(d.arguments@).contains(before[n].url)
        }
}

pub proof fn lemma_seen_to(
    style: char,
    before: Seq<repo_config::RepoConfigView>,
    after: Seq<repo_config::RepoConfigView>,
    base: Seq<char>,
    present: Seq<Seq<char>>,
    all: bool,
    r: Result<Option<Download>, Error>,
)
    requires
        repo::settles(before, after, r, style, base, present, all),
    ensures
        are_seen_to(style, before, after, base, present, all, r),
{
    lemma_unsettled(style, before, base, present, all, 0);
    let n = repo::first_unsettled(style, before, base, present, all, 0);
    assert forall|m: int|
        #![trigger before[m]]
        0 <= m < before.len() && (all || before[m].enable) && !is_in_place(
            style,
            before[m],
            base,
            present,
        ) && (forall|i: int|
            0 <= i < m ==> (all || (#[trigger] before[i]).enable) ==> is_in_place(
                style,
                before[i],
                base,
                present,
            )) implies m == n by {
        if n < m {
            assert(all || before[n].enable);
        }
    }
    if n < before.len() {
        if let Ok(Some(d)) = r {
            assert(text::texts(d.arguments@)[2] == before[n].url);
        }
    }
}

/// All repositories of a list are seen to, one after the other.
pub proof fn law_all_repositories_are_seen_to(
    style: &PathStyle,
    base: &str,
    present: &Vec<String>,
)
    ensures
        forall|c: &mut Vec<RepoConfig>, r: Result<Option<Download>, Error>| #[trigger]
            call_ensures(repo::ensure_repositories, (style, c, base, present), r) ==> are_seen_to(
                style@,
                repo_config::config_views(c@),
                repo_config::config_views(final(c)@),
                base@,
                text::texts(present@),
                true,
                r,
            ),
        forall|c: &mut Vec<RepoConfig>, r: Result<Option<Download>, Error>| #[trigger]
            call_ensures(repo::ensure_enabled_repositories, (style, c, base, present), r)
                ==> are_seen_to(
                style@,
                repo_config::config_views(c@),
                repo_config::config_views(final(c)@),
                base@,
                text::texts(present@),
                false,
                r,
            ),
{
    assert forall|c: &mut Vec<RepoConfig>, r: Result<Option<Download>, Error>| #[trigger]
        call_ensures(repo::ensure_repositories, (style, c, base, present), r) implies are_seen_to(
        style@,
        repo_config::config_views(c@),
        repo_config::config_views(final(c)@),
        base@,
        text::texts(present@),
        true,
        r,
    ) by {
        lemma_seen_to(
            style@,
            repo_config::config_views(c@),
            repo_config::config_views(final(c)@),
            base@,
            text::texts(present@),
            true,
            r,
        );
    }
    assert forall|c: &mut Vec<RepoConfig>, r: Result<Option<Download>, Error>| #[trigger]
        call_ensures(
            repo::ensure_enabled_repositories,
            (style, c, base, present),
            r,
        ) implies are_seen_to(
        style@,
        repo_config::config_views(c@),
        repo_config::config_views(final(c)@),
        base@,
        text::texts(present@),
        false,
        r,
    ) by {
        lemma_seen_to(
            style@,
            repo_config::config_views(c@),
            repo_config::config_views(final(c)@),
            base@,
            text::texts(present@),
            false,
            r,
        );
    }
}

/// The paths that are asked for are those on which it rests whether a repository is in place.
pub proof fn law_wanted_paths_decide(
    style: &PathStyle,
    config: &RepoConfig,
    base: &str,
    present: Seq<Seq<char>>,
    others: Seq<Seq<char>>,
    r: Vec<String>,
)
    requires
        call_ensures(repo::wanted_paths, (style, config, base), r),
        forall|i: int|
            0 <= i < r@.len() ==> (present.contains(#[trigger] r@[i]@) <==> others.contains(
                r@[i]@,
            )),
    ensures
        is_in_place(style@, config@, base@, present) == is_in_place(
            style@,
            config@,
            base@,
            others,
        ),
{
    let asked = text::texts(r@);
    assert(asked == repo::paths_asked_for(style@, config@, base@));
    assert(asked.len() == r@.len());
    assert(asked[0] == r@[0]@);
    if repo::name_in_url(config@.url) is Some {
        assert(asked[1] == r@[1]@);
    }
}

proof fn lemma_last_named(names: Seq<Seq<char>>, name: Seq<char>)
    ensures
        match conanfile::last_named(names, name) {
            Some(i) => 0 <= i < names.len() && names[i] == name && forall|j: int|
                i < j < names.len() ==> #[trigger] names[j] != name,
            None => forall|j: int| 0 <= j < names.len() ==> #[trigger] names[j] != name,
        },
    decreases names.len(),
{
    if names.len() > 0 && names.last() != name {
        let front = names.drop_last();
        lemma_last_named(front, name);
        assert forall|j: int|
            0 <= j < names.len() && (match conanfile::last_named(names, name) {
                Some(i) => i < j,
                None => true,
            }) implies #[trigger] names[j] != name by {
            if j < front.len() {
                assert(front[j] == names[j]);
            }
        }
    }
}

/// Every branch of the history is offered, in its order, with a last item for another name; the
/// branch of last time is told and marked. Picking an item gives that very branch.
pub proof fn law_offered_branches(
    last: &str,
    history: &Vec<String>,
    prompt: SyncPrompt,
    i: usize,
    step: SyncStep,
)
    requires
        history@.len() > 0,
        call_ensures(repo::interactive_select_sync_branch, (last, history), prompt),
        call_ensures(repo::after_answer, (last, history, &prompt, SyncAnswer::Picked(i)), step),
    ensures
        prompt is Pick,
        prompt matches SyncPrompt::Pick { items, marked } ==> {
            &&& items@.len() == history@.len() + 1
            &&& forall|k: int|
                0 <= k < history@.len() ==> (#[trigger] items@[k])@ == history@[k]@ + (if history@[k]@
                    == last@ {
                    " (上次使用)"@
                } else {
                    Seq::empty()
                })
            &&& marked < history@.len()
            &&& forall|k: int|
                0 <= k < history@.len() && (#[trigger] history@[k])@ == last@ ==> history@[marked as int]@
                    == last@ && k <= marked
            &&& (forall|k: int| 0 <= k < history@.len() ==> (#[trigger] history@[k])@ != last@)
                ==> marked == 0
        },
        i < history@.len() ==> (step matches SyncStep::Done(b) && b@ == history@[i as int]@),
        i >= history@.len() ==> step == SyncStep::Ask(SyncPrompt::Enter),
{
    let all = text::texts(history@);
    lemma_last_named(all, last@);
    if let SyncPrompt::Pick { items, marked } = prompt {
        let shown = text::texts(items@);
        assert(shown.len() == items@.len());
        assert forall|k: int| 0 <= k < history@.len() implies (#[trigger] items@[k])@
            == history@[k]@ + (if history@[k]@ == last@ {
            " (上次使用)"@
        } else {
            Seq::empty()
        }) by {
            assert(items@[k]@ == shown[k]);
            assert(shown[k] == repo::branch_item(all[k], last@));
        }
        assert forall|k: int| 0 <= k < history@.len() && (#[trigger] history@[k])@
            == last@ implies history@[marked as int]@ == last@ && k <= marked by {
            assert(all[k] == last@);
        }
        if forall|k: int| 0 <= k < history@.len() ==> (#[trigger] history@[k])@ != last@ {
            if let Some(m) = conanfile::last_named(all, last@) {
                assert(history@[m]@ == all[m]);
            }
        }
    }
}

/// A branch that is entered counts without the white space around it. Nothing entered leads back
/// to the choice, or is refused where there is none; no answer is refused.
pub proof fn law_entered_branches(
    last: &str,
    history: &Vec<String>,
    prompt: SyncPrompt,
    entered: String,
    step: SyncStep,
    none: SyncStep,
)
    requires
        !(prompt is Pick),
        call_ensures(
            repo::after_answer,
            (last, history, &prompt, SyncAnswer::Entered(entered)),
            step,
        ),
        call_ensures(repo::after_answer, (last, history, &prompt, SyncAnswer::Cancelled), none),
    ensures
        none is Fail,
        text::trim_of(entered@).len() > 0 ==> (step matches SyncStep::Done(b) && b@
            == text::trim_of(entered@)),
        text::trim_of(entered@).len() == 0 ==> if prompt is Enter {
            step is Ask && !(step matches SyncStep::Ask(p) && p is Enter)
        } else {
            step is Fail
        },
{
}

/// Without a history a name is asked for, with the branch of last time to fall back to if there
/// is one.
pub proof fn law_first_branch_is_asked_for(last: &str, history: &Vec<String>, prompt: SyncPrompt)
    requires
        history@.len() == 0,
        call_ensures(repo::interactive_select_sync_branch, (last, history), prompt),
    ensures
        match prompt {
            SyncPrompt::EnterFirst { prompt, fallback } => match fallback {
                Some(branch) => last@.len() > 0 && branch@ == last@ && text::contains_text(
                    prompt@,
                    last@,
                ),
                None => last@.len() == 0,
            },
            _ => false,
        },
{
    text_laws::law_containing("请输入要同步的分支名称 (默认: "@ + last@ + ")"@, last@);
}

/// The branch of last time is taken without asking exactly where there is one and the repository
/// is still on the same branch.
pub proof fn law_same_branch_is_not_asked_for(
    input: &GitMergeInput,
    current: &str,
    step: SyncStep,
)
    requires
        call_ensures(repo::smart_merge_branch, (input, current), step),
    ensures
        step is Done <==> current@ == input.last_local_branch@ && input.last_sync_branch@.len() > 0,
        step matches SyncStep::Done(b) ==> b@ == input.last_sync_branch@,
        !(step is Done) ==> step is Ask && (step matches SyncStep::Ask(p) ==> !(p is Enter) && (p
            is Pick <==> input.sync_branch_history@.len() > 0)),
{
}

/// The arguments of a run of `git`.
pub open spec fn is_git(command: GitCommand, arguments: Seq<Seq<char>>) -> bool {
    text::texts(command.arguments@) == arguments
}

/// A repository is merged with the branch, and its submodules are brought up to date after that.
/// Where the branch is one of a remote that the repository has, it is got from there first: into
/// the branch the repository is on where that is the one, and otherwise into its own.
pub proof fn law_branch_is_merged(
    repo_dir: &str,
    sync_branch: &str,
    remotes: &Vec<String>,
    current: &str,
    remote: Seq<char>,
    branch: Seq<char>,
    commands: Vec<GitCommand>,
)
    requires
        text_laws::lacks(remote, '/'),
        sync_branch@ == remote + seq!['/'] + branch || sync_branch@ == remote,
        call_ensures(
            repo::inner_merge_branch,
            (repo_dir, true, sync_branch, remotes, current),
            Ok::<Vec<GitCommand>, Error>(commands),
        ),
    ensures
        commands@.len() >= 2,
        is_git(commands@[commands@.len() - 2], seq!["merge"@, sync_branch@]),
        is_git(commands@[commands@.len() - 1], seq!["submodule"@, "update"@, "--recursive"@]),
        if sync_branch@ == remote + seq!['/'] + branch && text::texts(remotes@).contains(remote) {
            commands@.len() == 3 && is_git(
                commands@[0],
                if current@ == branch {
                    seq!["pull"@, "--recurse-submodules"@, remote, branch]
                } else {
                    seq!["fetch"@, remote, branch + ":"@ + branch]
                },
            )
        } else {
            commands@.len() == 2
        },
        forall|i: int|
            0 <= i < commands@.len() ==> text::contains_text(
                (#[trigger] commands@[i]).failure@,
                repo_dir@,
            ),
{
    text_laws::law_cutting_once(remote, '/', branch);
    let views = repo::command_views(commands@);
    let n = views.len();
    assert(views[n - 2] == commands@[n - 2]@);
    assert(views[n - 1] == commands@[n - 1]@);
    assert(views[0] == commands@[0]@);
    assert forall|i: int| 0 <= i < commands@.len() implies text::contains_text(
        (#[trigger] commands@[i]).failure@,
        repo_dir@,
    ) by {
        assert(views[i] == commands@[i]@);
        let what = if i == n - 1 {
            "submodule update"@
        } else if i == n - 2 {
            "merge"@
        } else if current@ == branch {
            "pull"@
        } else {
            "fetch"@
        };
        let text = repo::git_failure(what, repo_dir@);
        assert(commands@[i].failure@ == text);
        text_laws::law_containing(text, repo_dir@);
        assert(text == ("Git "@ + what + " failed for repo '"@) + repo_dir@ + "'"@);
    }
}

/// A repository that is not there is not merged, and any other is.
pub proof fn law_absent_repository_is_refused(
    repo_dir: &str,
    exists_there: bool,
    sync_branch: &str,
    remotes: &Vec<String>,
    current: &str,
    r: Result<Vec<GitCommand>, Error>,
)
    requires
        call_ensures(
            repo::inner_merge_branch,
            (repo_dir, exists_there, sync_branch, remotes, current),
            r,
        ),
    ensures
        r is Ok <==> exists_there,
{
}

} // verus!
