use repo_debug::error::FileText;
use repo_debug::paths::PathStyle;
use repo_debug::repo::{
    after_answer, download_repo_from_url, ensure_enabled_repositories, ensure_repo_preset,
    ensure_repositories,
    get_identification_name, inner_merge_branch, interactive_select_sync_branch,
    parse_repo_path_from_url, smart_merge_branch, wanted_paths, GitMergeInput, GitMergeTask,
    Placement, SyncAnswer, SyncPrompt, SyncStep,
};
use repo_debug::repo_config::{RepoConfig, StoredRepoConfig};
use repo_debug::task::TaskMeta;

fn names(list: &[&str]) -> Vec<String> {
    list.iter().map(|s| s.to_string()).collect()
}

/// The settings in a JSON object, as far as they are there.
fn stored(json: &str) -> StoredRepoConfig {
    let value: serde_json::Value = serde_json::from_str(json).unwrap();
    let text = |key: &str| value.get(key).and_then(|v| v.as_str()).map(|s| s.to_string());
    let flag = |key: &str| value.get(key).and_then(|v| v.as_bool());
    StoredRepoConfig {
        url: text("url"),
        path: text("path"),
        extra_conan_options: None,
        extra_cmake_options: None,
        cmake_generator_keyword: text("cmake_generator_keyword"),
        conan_output_folder: text("conan_output_folder"),
        conan_toolchain_managed_by_cmake: flag("conan_toolchain_managed_by_cmake"),
        auto_clone: flag("auto_clone"),
        enable: flag("enable"),
    }
}

#[test]
fn default_repo_config_disables_auto_clone() {
    assert!(!RepoConfig::default().auto_clone);
    assert!(!RepoConfig::empty().auto_clone);
}

#[test]
fn missing_auto_clone_deserializes_to_enabled() {
    let config = RepoConfig::from_stored(stored(
        r#"{"url":"https://example.com/example/repo.git","conan_output_folder":"build/conan"}"#,
    ));

    assert!(config.auto_clone);
}

#[test]
fn missing_url_deserializes_to_empty_string() {
    let config = RepoConfig::from_stored(stored(
        r#"{"conan_output_folder":"build/conan","auto_clone":false}"#,
    ));

    assert!(config.url.is_empty());
}

#[test]
fn missing_cmake_generator_keyword_defaults_to_visual_studio() {
    let config = RepoConfig::from_stored(stored(
        r#"{"url":"https://example.com/example/repo.git","conan_output_folder":"build/conan"}"#,
    ));

    assert_eq!(config.cmake_generator_keyword, "Visual Studio");
}

#[test]
fn packages_go_to_their_default_folder() {
    assert_eq!(RepoConfig::empty().conan_output_folder, "build/conan");
    assert_eq!(RepoConfig::from_stored(stored("{}")).conan_output_folder, "build/conan");
    let own = RepoConfig::from_stored(stored(r#"{"conan_output_folder":"x","enable":false}"#));
    assert_eq!(own.conan_output_folder, "x");
    assert!(!own.enable);
    assert!(!own.conan_toolchain_managed_by_cmake);
}

#[test]
fn ensure_repo_preset_errors_when_auto_clone_disabled_and_path_empty() {
    let mut repo_cfg = RepoConfig {
        url: "https://example.com/example/repo.git".to_string(),
        auto_clone: false,
        ..Default::default()
    };

    let err = ensure_repo_preset(&PathStyle::native(), &mut repo_cfg, "/base", &Vec::new())
        .err()
        .unwrap();
    assert!(err.message.contains("Repository path is empty and auto_clone is disabled"));
}

#[test]
fn ensure_repo_preset_errors_when_auto_clone_disabled_and_path_missing() {
    let mut repo_cfg = RepoConfig {
        url: "https://example.com/example/repo.git".to_string(),
        path: "missing_repo".to_string(),
        auto_clone: false,
        ..Default::default()
    };

    let err = ensure_repo_preset(&PathStyle::native(), &mut repo_cfg, "/base", &Vec::new())
        .err()
        .unwrap();
    assert!(err.message.contains("Repository path does not exist and auto_clone is disabled"));
}

#[test]
fn ensure_repo_preset_accepts_existing_path_when_auto_clone_disabled() {
    let mut repo_cfg = RepoConfig {
        url: "https://example.com/example/repo.git".to_string(),
        path: "existing_repo".to_string(),
        auto_clone: false,
        ..Default::default()
    };

    let present = names(&["/base/existing_repo"]);
    assert!(ensure_repo_preset(&PathStyle::native(), &mut repo_cfg, "/base", &present)
        .unwrap()
        .is_none());
    assert_eq!(repo_cfg.path, "existing_repo");
}

#[test]
fn names_are_found_in_addresses() {
    for (url, name) in [
        ("https://github.com/user/repo.git", "repo"),
        ("https://github.com/user/repo", "repo"),
        ("git@github.com:user/repo.git", "repo"),
        ("git@github.com:user/path/to/repo", "repo"),
        ("git://github.com/user/repo.git", "repo"),
        ("  host:repo.git  ", "repo"),
        ("C:/dir/repo", "repo"),
        ("dir/repo.git", "repo"),
        ("https://host:8080/x", "x"),
    ] {
        assert_eq!(parse_repo_path_from_url(url), Some(name.to_string()), "{}", url);
    }
    for url in ["", "   ", "https://github.com/", "https://", "git@host:", ".git"] {
        assert_eq!(parse_repo_path_from_url(url), None, "{}", url);
    }
}

#[test]
fn repositories_are_known_by_their_package_or_address() {
    let recipe = FileText::Text("name = 'pkg'".to_string());
    assert_eq!(get_identification_name(&recipe, "").unwrap(), "pkg");
    let url = "https://x/y.git";
    assert_eq!(get_identification_name(&FileText::Missing, url).unwrap(), "y");
    let nameless = FileText::Text("x = 1".to_string());
    assert_eq!(get_identification_name(&nameless, url).unwrap(), "y");
    let err = get_identification_name(&FileText::Unreadable, "https://x/").unwrap_err();
    assert!(err.message.ends_with(": https://x/"));
}

#[test]
fn downloads_go_below_the_base() {
    let style = PathStyle::native();
    match download_repo_from_url(&style, "https://x/y.git", "/base", &Vec::new()) {
        Ok(Placement::Missing(name, download)) => {
            assert_eq!(name, "y");
            assert_eq!(download.directory, "/base");
            assert_eq!(download.target, "/base/y");
            assert_eq!(
                download.arguments,
                vec!["clone", "--recurse-submodules", "https://x/y.git", "y"]
            );
        }
        _ => panic!("expected a download"),
    }
    let there = names(&["/base/y"]);
    match download_repo_from_url(&style, "https://x/y.git", "/base", &there) {
        Ok(Placement::There(name)) => assert_eq!(name, "y"),
        _ => panic!("expected the repository to be there"),
    }
    assert!(download_repo_from_url(&style, "", "/base", &there).is_err());
}

fn repo(path: &str, url: &str, enable: bool) -> RepoConfig {
    RepoConfig {
        url: url.to_string(),
        path: path.to_string(),
        auto_clone: true,
        enable,
        ..Default::default()
    }
}

#[test]
fn repositories_are_settled_one_after_the_other() {
    let style = PathStyle::native();
    let mut repos = vec![
        repo("a", "https://x/a", true),
        repo("off", "", false),
        repo("", "https://x/b.git", true),
        repo("gone", "https://x/c.git", true),
    ];
    let mut present = names(&["/base/a", "/base/b"]);
    let first =
        ensure_enabled_repositories(&style, &mut repos, "/base", &present).unwrap().unwrap();
    assert_eq!(first.target, "/base/c");
    assert_eq!(repos[2].path, "b");
    assert_eq!(repos[3].path, "c");
    present.push(first.target);
    assert!(ensure_enabled_repositories(&style, &mut repos, "/base", &present)
        .unwrap()
        .is_none());
    assert_eq!(repos[3].path, "c");
    assert_eq!(repos[1].path, "off");
    assert_eq!(wanted_paths(&style, &repos[0], "/base"), vec!["/base/a", "/base/a"]);
    let switched_off = ensure_repositories(&style, &mut repos, "/base", &present);
    assert!(switched_off.err().unwrap().message.starts_with("无法从URL解析仓库名称"));
    let mut moved = vec![repo("lib/core", "https://x/core.git", true)];
    let download =
        ensure_enabled_repositories(&style, &mut moved, "/base", &present).unwrap().unwrap();
    assert_eq!(download.target, "/base/core");
    assert_eq!(moved[0].path, "core");
    let mut refused = vec![repo("", "https://x/", true)];
    assert!(ensure_repositories(&style, &mut refused, "/base", &present).is_err());
}

#[test]
fn branches_of_last_time_are_used_again() {
    let mut input = GitMergeInput {
        repo_path: "/r".to_string(),
        last_local_branch: "dev".to_string(),
        last_sync_branch: "origin/main".to_string(),
        sync_branch_history: names(&["origin/x", "origin/main"]),
    };
    assert!(matches!(
        smart_merge_branch(&input, "dev"),
        SyncStep::Done(branch) if branch == "origin/main"
    ));
    match smart_merge_branch(&input, "other") {
        SyncStep::Ask(SyncPrompt::Pick { items, marked }) => {
            assert_eq!(marked, 1);
            assert_eq!(items.len(), 3);
            assert_eq!(items[0], "origin/x");
            assert!(items[1].starts_with("origin/main ("));
        }
        _ => panic!("expected a choice"),
    }
    input.last_sync_branch = String::new();
    assert!(matches!(smart_merge_branch(&input, "dev"), SyncStep::Ask(_)));
    assert_eq!(GitMergeTask { executor: () }.id(), "git_merge");
}

#[test]
fn branches_are_picked_or_entered() {
    let history = names(&["origin/x"]);
    let pick = interactive_select_sync_branch("", &history);
    let picked = after_answer("", &history, &pick, SyncAnswer::Picked(0));
    assert!(matches!(picked, SyncStep::Done(b) if b == "origin/x"));
    let enter = match after_answer("", &history, &pick, SyncAnswer::Picked(1)) {
        SyncStep::Ask(prompt) => prompt,
        _ => panic!("expected another question"),
    };
    let entered = after_answer("", &history, &enter, SyncAnswer::Entered(" up/y ".to_string()));
    assert!(matches!(entered, SyncStep::Done(b) if b == "up/y"));
    let back = after_answer("", &history, &enter, SyncAnswer::Entered("  ".to_string()));
    assert!(matches!(back, SyncStep::Ask(SyncPrompt::Pick { .. })));
    let stopped = after_answer("", &history, &pick, SyncAnswer::Cancelled);
    assert!(matches!(stopped, SyncStep::Fail(_)));
}

#[test]
fn branches_are_asked_for_without_a_history() {
    let none = Vec::new();
    let first = interactive_select_sync_branch("origin/main", &none);
    match &first {
        SyncPrompt::EnterFirst { prompt, fallback } => {
            assert!(prompt.contains("origin/main"));
            assert_eq!(fallback.as_deref(), Some("origin/main"));
        }
        _ => panic!("expected a question"),
    }
    let blank = after_answer("origin/main", &none, &first, SyncAnswer::Entered(" ".to_string()));
    assert!(matches!(blank, SyncStep::Fail(_)));
    match interactive_select_sync_branch("", &none) {
        SyncPrompt::EnterFirst { fallback, .. } => assert!(fallback.is_none()),
        _ => panic!("expected a question"),
    }
}

#[test]
fn branches_are_got_from_their_remote_and_merged() {
    let remotes = names(&["origin"]);
    let lists = |branch: &str, current: &str| -> Vec<Vec<String>> {
        inner_merge_branch("/r", true, branch, &remotes, current)
            .ok()
            .unwrap()
            .into_iter()
            .map(|command| command.arguments)
            .collect()
    };
    assert_eq!(
        lists("origin/a/b", "a/b"),
        vec![
            vec!["pull", "--recurse-submodules", "origin", "a/b"],
            vec!["merge", "origin/a/b"],
            vec!["submodule", "update", "--recursive"]
        ]
    );
    assert_eq!(lists("origin/a", "dev")[0], vec!["fetch", "origin", "a:a"]);
    assert_eq!(lists("feature/a", "dev").len(), 2);
    assert_eq!(lists("main", "dev")[0], vec!["merge", "main"]);
    let commands = inner_merge_branch("/r", true, "main", &remotes, "dev").ok().unwrap();
    assert_eq!(commands[1].failure, "Git submodule update failed for repo '/r'");
    let err = inner_merge_branch("/r", false, "main", &remotes, "dev").err().unwrap();
    assert_eq!(err.message, "Repo path does not exist: /r");
}
