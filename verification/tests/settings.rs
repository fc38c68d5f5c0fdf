use repo_debug::cli::{ConfigCommand, RunArgs};
use repo_debug::cmake_build_install::{
    BuildInstallOutput, CMakeBuildParallel, RawCMakeBuildParallel, StoredCMakeBuildParallel,
};
use repo_debug::cmake_configure::CMakeConfigureOutput;
use repo_debug::conan_executor::ConanInstallOutput;
use repo_debug::conanfile::{
    build_dependency_graph_and_topological_sort, DependencyQueryInput, DependencyTopologicalInfo,
};
use repo_debug::config::progress::{Progress, ProgressStore};
use repo_debug::config::{
    build_runtime_context, config_file_path, derive_interrupt_cache_path,
    load_or_create_file_config, stored_generator, work_dir_of, FileConfig, InterruptCache,
    InterruptRepoCache,
};
use repo_debug::error::{Error, FileText};
use repo_debug::paths::{PathContext, PathStyle};
use repo_debug::repo::{GitMergeExecutor, GitMergeInput, GitMergeOutput, GitMergeTask};
use repo_debug::repo_config::RepoConfig;
use repo_debug::task::{run_task, FingerprintProvider};
use repo_debug::workflow::{
    apply_config_command, check_config_command, copy_compile_commands, copy_dll,
    leave_out_disabled, merge_sln, participating, prepare_progress, RunAction, RunEvent, Session,
};
use std::cell::Cell;

fn context() -> PathContext {
    PathContext::new(PathStyle::native(), "/work".to_string()).unwrap()
}

fn names(list: &[&str]) -> Vec<String> {
    list.iter().map(|s| s.to_string()).collect()
}

/// What a JSON value of the setting means; `None` where it is neither a flag nor an integer.
fn build_parallel(json: &str) -> Option<Result<CMakeBuildParallel, i64>> {
    let value: serde_json::Value = serde_json::from_str(json).unwrap();
    let raw = match (value.as_bool(), value.as_i64()) {
        (Some(flag), _) => RawCMakeBuildParallel::Bool(flag),
        (None, Some(number)) => RawCMakeBuildParallel::Int(number),
        (None, None) => return None,
    };
    Some(CMakeBuildParallel::from_setting(raw))
}

#[test]
fn file_config_defaults_build_parallel_to_disabled_when_missing() {
    assert_eq!(CMakeBuildParallel::default(), CMakeBuildParallel::Disabled);
    assert_eq!(FileConfig::default().cmake_build_parallel, CMakeBuildParallel::Disabled);
}

#[test]
fn legacy_interrupt_repo_cache_defaults_to_visual_studio_generator() {
    assert_eq!(stored_generator(None), "Visual Studio");
}

#[test]
fn file_config_parses_bool_build_parallel_values() {
    assert_eq!(build_parallel("true"), Some(Ok(CMakeBuildParallel::Auto)));
    assert_eq!(build_parallel("false"), Some(Ok(CMakeBuildParallel::Disabled)));
}

#[test]
fn file_config_parses_integer_build_parallel_value() {
    assert_eq!(build_parallel("4"), Some(Ok(CMakeBuildParallel::Jobs(4))));
}

#[test]
fn file_config_rejects_invalid_build_parallel_values() {
    assert_eq!(build_parallel("0"), Some(Err(0)));
    assert_eq!(build_parallel("-1"), Some(Err(-1)));
    assert_eq!(build_parallel("\"true\""), None);
    assert_eq!(build_parallel("1.5"), None);
}

fn with_cache(config: &mut FileConfig, name: &str, cache: InterruptRepoCache) {
    config.interrupt_cache.interrupt_repo_cache.insert(name.to_string(), cache);
}

#[test]
fn build_install_input_receives_global_build_parallel_config() {
    let mut file_config = FileConfig {
        cmake_build_parallel: CMakeBuildParallel::Jobs(4),
        executable: RepoConfig {
            identification_name: "app".to_string(),
            ..RepoConfig::empty()
        },
        ..FileConfig::default()
    };
    let mut repo_cache = InterruptRepoCache::default();
    repo_cache.repo_dir = "D:\\repo".to_string();
    repo_cache.cmake_pkg_name = "pkg".to_string();
    repo_cache.install_prefix = "install".to_string();
    repo_cache.cmake_binary_dir = "build".to_string();
    with_cache(&mut file_config, "pkg", repo_cache);

    let input = file_config
        .build_install_input(&PathStyle::native(), "pkg")
        .ok()
        .expect("build install input should be created");

    assert_eq!(input.build_parallel, CMakeBuildParallel::Jobs(4));
    assert!(input.need_install);
}

#[test]
fn compile_commands_input_omits_solution_for_non_visual_studio_repo() {
    let mut file_config = FileConfig::default();
    let mut repo_cache = InterruptRepoCache::default();
    repo_cache.cmake_generator = "Ninja".to_string();
    with_cache(&mut file_config, "pkg", repo_cache);

    let input =
        file_config.compile_commands_input(&PathStyle::native(), "pkg", false).ok().unwrap();

    assert!(input.sln_path.is_none());
}

#[test]
fn compile_commands_publish_skips_disabled_visual_studio_repo() {
    let mut file_config = FileConfig::default();
    file_config.compile_commands_config.enabled = false;
    let mut repo_cache = InterruptRepoCache::default();
    repo_cache.repo_dir = "missing_repo".to_string();
    repo_cache.cmake_binary_dir = "missing_build".to_string();
    repo_cache.cmake_generator = "Visual Studio 17 2022".to_string();
    with_cache(&mut file_config, "repo", repo_cache);

    let dirs = copy_compile_commands(&PathStyle::native(), &file_config, "repo").ok().unwrap();
    assert!(dirs.is_none());
}

/// An executable and two libraries below `/work`.
fn session() -> FileConfig {
    let mut config = FileConfig::default();
    config.work_dir = "/work".to_string();
    config.executable.path = "app".to_string();
    config.executable.url = "https://x/app.git".to_string();
    for (path, url) in [("core", "https://x/core.git"), ("net", "https://x/net.git")] {
        config.possible_dependencies.push(RepoConfig {
            path: path.to_string(),
            url: url.to_string(),
            ..RepoConfig::empty()
        });
    }
    let recipes = vec![
        FileText::Text("name = 'app'".to_string()),
        FileText::Text("name = 'core_pkg'".to_string()),
        FileText::Missing,
    ];
    config.update_repo_path(&PathStyle::native(), &recipes).unwrap();
    config
}

fn edit(config: &mut FileConfig, name: &str, change: impl FnOnce(&mut InterruptRepoCache)) {
    let mut cache = config.interrupt_cache.interrupt_repo_cache.remove(name).unwrap();
    change(&mut cache);
    with_cache(config, name, cache);
}

#[test]
fn repositories_get_their_names_and_places() {
    let config = session();
    assert_eq!(config.executable.identification_name, "app");
    assert_eq!(config.possible_dependencies[0].identification_name, "core_pkg");
    assert_eq!(config.possible_dependencies[1].identification_name, "net");
    assert_eq!(config.get_repo_dir("core_pkg").unwrap(), "/work/core");
    assert_eq!(config.get_all_dependencies(), vec!["core_pkg", "net", "app"]);
    assert_eq!(
        config.get_repo_dir("other").unwrap_err().message,
        "Dependency not found: other"
    );
    let mut nameless = FileConfig::default();
    let recipes = vec![FileText::Missing];
    assert!(nameless.update_repo_path(&PathStyle::native(), &recipes).is_err());
    assert!(config.get_repo_config("app").is_ok());
    assert_eq!(
        config.get_repo_config("x").err().unwrap().message,
        "RepoConfig not found for: x"
    );
}

#[test]
fn names_registered_again_keep_what_is_known() {
    let mut config = session();
    edit(&mut config, "net", |cache| cache.cmake_pkg_name = "net_cmake".to_string());
    let recipes = vec![
        FileText::Text("name = 'app'".to_string()),
        FileText::Text("name = 'core_pkg'".to_string()),
        FileText::Missing,
    ];
    config.update_repo_path(&PathStyle::native(), &recipes).unwrap();
    let cache = config.get_interrupt_repo_cache("net").ok().unwrap();
    assert_eq!(cache.cmake_pkg_name, "net_cmake");
    assert_eq!(cache.repo_dir, "/work/net");
}

#[test]
fn repositories_are_looked_for_before_the_session() {
    let style = PathStyle::native();
    let mut config = session();
    config.possible_dependencies[0].path = String::new();
    config.possible_dependencies[0].auto_clone = true;
    config.possible_dependencies[1].enable = false;
    assert_eq!(
        config.wanted_paths(&style),
        vec!["/work/app", "/work/app", "/work/", "/work/core", "/work/net", "/work/net"]
    );
    let err = config.ensure_repositories(&style, &Vec::new()).err().unwrap();
    assert!(err.message.contains("auto_clone is disabled: /work/app"));
    let mut present = names(&["/work/app"]);
    let download = config.ensure_repositories(&style, &present).unwrap().unwrap();
    assert_eq!(download.target, "/work/core");
    present.push(download.target);
    assert!(config.ensure_repositories(&style, &present).unwrap().is_none());
    assert_eq!(config.possible_dependencies[0].path, "core");
}

#[test]
fn repositories_are_put_under_debug_and_taken_from_there() {
    let here = context();
    let mut config = session();
    config.apply_config_add(&here, &names(&["core", "/work/net", "core"])).unwrap();
    assert_eq!(config.debug_repo_names, vec!["core_pkg", "net"]);
    config.apply_config_remove(&here, &names(&["core"])).unwrap();
    assert_eq!(config.debug_repo_names, vec!["net"]);
    let err = config.apply_config_add(&here, &names(&["app", "nowhere", "core"])).unwrap_err();
    assert_eq!(err.message, "No identification name found for directory: /work/nowhere");
    assert_eq!(config.debug_repo_names, vec!["net", "app"]);
    assert!(config.apply_config_remove(&here, &names(&["x"])).is_err());
}

#[test]
fn removing_repositories_undoes_adding_them() {
    let here = context();
    let mut config = session();
    config.apply_config_add(&here, &names(&["net"])).unwrap();
    let more = names(&["core", "app", "core"]);
    config.apply_config_add(&here, &more).unwrap();
    assert_eq!(config.debug_repo_names, vec!["net", "core_pkg", "app"]);
    config.apply_config_remove(&here, &more).unwrap();
    assert_eq!(config.debug_repo_names, vec!["net"]);
}

#[test]
fn build_types_are_checked() {
    let mut config = FileConfig::default();
    assert_eq!(config.config, "RelWithDebInfo");
    assert!(config.validate().is_ok());
    config.set_build_type("Debug").unwrap();
    assert_eq!(config.config, "Debug");
    let err = config.set_build_type("debug").unwrap_err();
    assert_eq!(
        err.message,
        "Invalid config type: debug. Must be one of: Debug, Release, RelWithDebInfo, MinSizeRel"
    );
    assert_eq!(config.config, "Debug");
    config.config = String::new();
    assert!(config.validate().is_ok());
    assert!(config.set_build_type("x").is_err());
    assert_eq!(config.config, "RelWithDebInfo");
    config.config = "Fast".to_string();
    assert!(config.validate().is_err());
    config.config = "Release".to_string();
    config.cmake_build_parallel = CMakeBuildParallel::Jobs(0);
    assert_eq!(
        config.validate().unwrap_err().message,
        "cmake_build_parallel must be a positive integer when set to a number"
    );
}

#[test]
fn commands_change_the_settings() {
    let here = context();
    let mut config = session();
    assert!(check_config_command(&ConfigCommand::default()).is_err());
    let command = ConfigCommand {
        build_type: Some("MinSizeRel".to_string()),
        add: names(&["core", "net"]),
        remove: names(&["net"]),
    };
    assert!(check_config_command(&command).is_ok());
    apply_config_command(&here, &mut config, &command).unwrap();
    assert_eq!(config.debug_repo_names, vec!["core_pkg"]);
    assert_eq!(config.config, "MinSizeRel");
    let bad = ConfigCommand { build_type: Some("Debug".to_string()), add: names(&["?"]), ..Default::default() };
    assert!(apply_config_command(&here, &mut config, &bad).is_err());
    assert_eq!(config.config, "MinSizeRel");
}

#[test]
fn command_line_says_what_to_configure() {
    let here = context();
    let mut config = session();
    let args = RunArgs {
        enable_merge: true,
        conan_update: true,
        cmake: Some(names(&["core"])),
        cmake_fresh: Some(names(&["net"])),
        ..Default::default()
    };
    config.update_cli_param(&here, &args).unwrap();
    assert!(config.enable_merge && config.need_conan_install && config.need_conan_install_update);
    let flags = |name: &str| {
        let cache = config.get_interrupt_repo_cache(name).ok().unwrap();
        (cache.need_cmake, cache.need_cmake_fresh)
    };
    assert_eq!(flags("core_pkg"), (true, false));
    assert_eq!(flags("net"), (true, true));
    assert_eq!(flags("app"), (false, false));
    let all = RunArgs { cmake: Some(Vec::new()), ..Default::default() };
    config.update_cli_param(&here, &all).unwrap();
    assert!(config.get_interrupt_repo_cache("app").ok().unwrap().need_cmake);
    assert!(!config.get_interrupt_repo_cache("net").ok().unwrap().need_cmake_fresh);
    let bad = RunArgs { conan: true, cmake: Some(names(&["x"])), ..Default::default() };
    assert!(config.update_cli_param(&here, &bad).is_err());
    assert!(config.need_conan_install && !config.need_conan_install_update);
    assert!(config.get_interrupt_repo_cache("app").ok().unwrap().need_cmake);
}

#[test]
fn progress_is_kept_as_far_as_it_is_wanted() {
    let finished = |args: &RunArgs| {
        let mut config = session();
        config.mark_task_finish("app", "git_merge");
        config.mark_task_finish("app", "build_install");
        config.mark_task_finish("net", "build_install");
        prepare_progress(&mut config, args);
        (
            config.is_task_finished("app", "git_merge"),
            config.is_task_finished("net", "build_install"),
        )
    };
    assert_eq!(finished(&RunArgs { is_continue: true, ..Default::default() }), (true, true));
    assert_eq!(finished(&RunArgs::default()), (false, false));
    let look = RunArgs { check_only: true, ..Default::default() };
    assert_eq!(finished(&look), (true, true));
    let look_and_merge = RunArgs { check_only: true, enable_merge: true, ..Default::default() };
    assert_eq!(finished(&look_and_merge), (true, true));
    assert!(!session().is_task_finished("app", "git_merge"));
}

#[test]
fn fingerprints_are_read_back() {
    let mut config = session();
    assert_eq!(config.get_fingerprint_json("app", "t"), "null");
    config.save_fingerprint_json("app", "t", "{\"a\":1}".to_string()).unwrap();
    assert_eq!(config.get_fingerprint_json("app", "t"), "{\"a\":1}");
    assert_eq!(config.get_fingerprint_json("net", "t"), "null");
    assert_eq!(config.get_fingerprint_json("app", "u"), "null");
    assert_eq!(
        config.save_fingerprint_json("x", "t", String::new()).unwrap_err().message,
        "Repo cache not found for: x"
    );
}

#[test]
fn branches_are_remembered_latest_first() {
    let mut config = session();
    let merge = |config: &mut FileConfig, branch: &str| {
        config
            .save_git_merge_output(
                "app",
                GitMergeOutput {
                    current_local_branch: "dev".to_string(),
                    current_sync_branch: branch.to_string(),
                },
            )
            .unwrap();
    };
    for i in 0..12 {
        merge(&mut config, &format!("b{}", i));
    }
    merge(&mut config, "b5");
    let input = config.git_merge_input("app").ok().unwrap();
    assert_eq!(
        input.sync_branch_history,
        vec!["b5", "b11", "b10", "b9", "b8", "b7", "b6", "b4", "b3", "b2"]
    );
    assert_eq!(input.last_sync_branch, "b5");
    assert_eq!(input.last_local_branch, "dev");
    assert_eq!(input.repo_path, "/work/app");
    assert!(config.git_merge_input("x").is_err());
}

struct Memory {
    saved: Cell<u32>,
}

impl ProgressStore for Memory {
    fn save(&self, _config: &FileConfig) -> Result<(), Error> {
        self.saved.set(self.saved.get() + 1);
        Ok(())
    }
}

struct Merger;

impl GitMergeExecutor for Merger {
    fn merge(&self, input: GitMergeInput) -> Result<GitMergeOutput, Error> {
        Ok(GitMergeOutput {
            current_local_branch: input.repo_path,
            current_sync_branch: "origin/main".to_string(),
        })
    }
}

#[test]
fn merged_repositories_are_noted_once() {
    let mut progress = Progress { store: Memory { saved: Cell::new(0) }, config: session() };
    let task = GitMergeTask { executor: Merger };
    run_task(&task, &mut progress, "app").unwrap();
    run_task(&task, &mut progress, "app").unwrap();
    assert_eq!(progress.store.saved.get(), 1);
    assert!(progress.config.is_task_finished("app", "git_merge"));
    let app = progress.config.git_merge_input("app").ok().unwrap();
    assert_eq!(app.last_local_branch, "/work/app");
    assert_eq!(app.last_sync_branch, "origin/main");
    assert_eq!(app.sync_branch_history, vec!["origin/main"]);
    let core = progress.config.git_merge_input("core_pkg").ok().unwrap();
    assert_eq!(core.last_sync_branch, "");
    assert!(run_task(&task, &mut progress, "x").is_err());
    assert!(!progress.config.is_task_finished("x", "git_merge"));
    assert_eq!(progress.get_fingerprint_json("app", "t").unwrap(), "null");
    progress.save_fingerprint_json("app", "t", "7".to_string()).unwrap();
    assert_eq!(progress.get_fingerprint_json("app", "t").unwrap(), "7");
    assert!(progress.save_fingerprint_json("x", "t", String::new()).is_err());
}

#[test]
fn packages_are_installed_with_common_and_own_options() {
    let here = context();
    let mut config = session();
    config.common_conan_options = names(&["-s", "a"]);
    config.possible_dependencies[0].extra_conan_options = names(&["-o", "b"]);
    config.need_conan_install_update = true;
    let input = config.conan_install_input("core_pkg").ok().unwrap();
    assert_eq!(input.extra_conan_options, vec!["-s", "a", "-o", "b"]);
    assert!(input.need_install && input.need_update);
    assert_eq!(input.conan_output_folder, "build/conan");
    let output = ConanInstallOutput {
        conan_toolchain_path: Some("/work/core/conan/conan_toolchain.cmake".to_string()),
        new_conan_toolchain_hash: Some(17),
    };
    config.save_conan_install_output(&here, "core_pkg", output).unwrap();
    let nothing = ConanInstallOutput { conan_toolchain_path: None, new_conan_toolchain_hash: None };
    config.save_conan_install_output(&here, "core_pkg", nothing).unwrap();
    let cache = config.get_interrupt_repo_cache("core_pkg").ok().unwrap();
    assert_eq!(cache.conan_toolchain_path, "conan/conan_toolchain.cmake");
    assert_eq!(cache.conan_toolchain_hash, 17);
}

struct Recipes;

impl DependencyQueryInput for Recipes {
    fn get_conanfile_content_by_conan_name(&self, name: &str) -> Result<String, Error> {
        Ok(match name {
            "app" => "'core_pkg/1' 'net/1'".to_string(),
            "net" => "'core_pkg/1'".to_string(),
            _ => String::new(),
        })
    }

    fn get_all_dependencies(&self) -> Vec<String> {
        names(&["core_pkg", "net", "app"])
    }
}

fn topology(debug: &[&str]) -> DependencyTopologicalInfo {
    build_dependency_graph_and_topological_sort("app", &Recipes, &names(debug)).ok().unwrap()
}

#[test]
fn repositories_are_configured_with_what_they_require() {
    let style = PathStyle::native();
    let mut config = session();
    config.dependency_topological_info = topology(&["core_pkg"]);
    config.executable.conan_toolchain_managed_by_cmake = false;
    edit(&mut config, "app", |cache| {
        cache.conan_toolchain_path = "conan/t.cmake".to_string();
        cache.need_cmake_fresh = true;
    });
    edit(&mut config, "core_pkg", |cache| {
        cache.cmake_pkg_name = "core".to_string();
        cache.cmake_pkg_config_dir = "install/cmake".to_string();
    });
    let input = config.cmake_configure_input(&style, "app").ok().unwrap();
    assert_eq!(input.repo_config.conan_toolchain_path.as_deref(), Some("/work/app/conan/t.cmake"));
    assert!(input.repo_config.need_cmake && input.repo_config.need_cmake_fresh);
    assert_eq!(input.dependencies.len(), 2);
    assert_eq!(input.dependencies[0].cmake_pkg_name, "core");
    assert_eq!(input.dependencies[0].cmake_pkg_config_dir, "/work/core/install/cmake");
    config.possible_dependencies[1].enable = false;
    assert_eq!(config.cmake_configure_input(&style, "app").ok().unwrap().dependencies.len(), 1);
    assert_eq!(
        config.cmake_configure_input(&style, "x").err().unwrap().message,
        "Package x not found in dependency graph"
    );
    let net = config.cmake_configure_input(&style, "net").ok().unwrap();
    assert!(net.repo_config.conan_toolchain_path.is_none());
}

#[test]
fn results_are_kept_relative_to_the_repository() {
    let here = context();
    let style = PathStyle::native();
    let mut config = session();
    let output = CMakeConfigureOutput {
        cmake_pkg_name: "core".to_string(),
        install_prefix: "/work/install".to_string(),
        cmake_binary_dir: "/work/core/out/build".to_string(),
        cmake_generator: "Visual Studio 17 2022".to_string(),
    };
    config.set_cmake_executor_output(&here, "core_pkg", output).unwrap();
    let cache = config.get_interrupt_repo_cache("core_pkg").ok().unwrap();
    assert_eq!(cache.cmake_binary_dir, "out/build");
    assert_eq!(cache.install_prefix, "../install");
    assert_eq!(config.get_cmake_binary_dir(&style, "core_pkg").unwrap(), "/work/core/out/build");
    assert_eq!(
        config.get_sln_file_path(&style, "core_pkg").unwrap(),
        "/work/core/out/build/core.sln"
    );
    assert!(config.is_visual_studio_generator("core_pkg").unwrap());
    assert_eq!(
        config.get_sln_file_path(&style, "net").unwrap_err().message,
        "CMake package name is empty for repo: net"
    );
    let built = BuildInstallOutput {
        cmake_pkg_config_dir: Some("/work/core/install/cmake".to_string()),
    };
    config.save_build_install_output(&here, "core_pkg", built).unwrap();
    let info = config.get_cmake_dependency_info(&style, "core_pkg").ok().unwrap();
    assert_eq!(info.cmake_pkg_config_dir, "/work/core/install/cmake");
    let nothing = BuildInstallOutput { cmake_pkg_config_dir: None };
    config.save_build_install_output(&here, "core_pkg", nothing).unwrap();
    let cache = config.get_interrupt_repo_cache("core_pkg").ok().unwrap();
    assert_eq!(cache.cmake_pkg_config_dir, "");
    let missing = config.compile_commands_input(&style, "core_pkg", false).err().unwrap();
    assert!(missing.message.ends_with("/work/core/out/build/core.sln"));
    let input = config.compile_commands_input(&style, "core_pkg", true).ok().unwrap();
    assert_eq!(input.sln_path.as_deref(), Some("/work/core/out/build/core.sln"));
}

#[test]
fn paths_that_cannot_be_told_from_the_root_are_refused() {
    let mut config = session();
    edit(&mut config, "net", |cache| cache.repo_dir = "../..".to_string());
    let output = CMakeConfigureOutput {
        cmake_pkg_name: "net".to_string(),
        install_prefix: "/ok".to_string(),
        cmake_binary_dir: "relative".to_string(),
        cmake_generator: String::new(),
    };
    let err = config.set_cmake_executor_output(&context(), "net", output).unwrap_err();
    assert_eq!(err.message, "Failed to get relative path for: relative");
}

#[test]
fn files_of_a_session_stand_together() {
    let here = context();
    let style = PathStyle::native();
    assert_eq!(config_file_path(&RunArgs::default()), "multi_repo_debug_param.json");
    assert_eq!(
        derive_interrupt_cache_path(&style, "/cfg/my.json"),
        "/cfg/interrupt-cache.my.json"
    );
    assert_eq!(derive_interrupt_cache_path(&style, "my.json"), "interrupt-cache.my.json");
    assert_eq!(work_dir_of(&here, "sub/my.json"), "/work/sub");
    assert_eq!(work_dir_of(&here, "my.json"), "/work");
    assert_eq!(work_dir_of(&here, "/"), ".");
    let args = RunArgs { config_file: Some("sub/my.json".to_string()), ..Default::default() };
    let mut cache = InterruptCache::default();
    cache.sync_branch_history.push("origin/main".to_string());
    let config = build_runtime_context(&here, &args, FileConfig::default(), cache).ok().unwrap();
    assert_eq!(config.work_dir, "/work/sub");
    assert_eq!(config.self_file_path, "sub/my.json");
    assert_eq!(config.interrupt_cache.sync_branch_history, vec!["origin/main"]);
    let bad = FileConfig { config: "x".to_string(), ..FileConfig::default() };
    assert!(build_runtime_context(&here, &args, bad, InterruptCache::default()).is_err());
}

#[test]
fn disabled_repositories_are_left_out_of_the_build() {
    let mut config = session();
    config.debug_repo_names = names(&["core_pkg", "net", "gone"]);
    config.possible_dependencies[1].enable = false;
    let mut info = topology(&["core_pkg", "net", "gone"]);
    assert_eq!(info.sorted_names, vec!["core_pkg", "net", "app"]);
    assert_eq!(leave_out_disabled(&config, &mut info), vec!["net"]);
    assert_eq!(info.sorted_names, vec!["core_pkg", "app"]);
    assert_eq!(info.graph.node_count(), 3);
    assert_eq!(participating(&config, &info), vec!["core_pkg"]);
    assert!(config.is_dependency_enabled_in_config("app"));
    assert!(!config.is_dependency_enabled_in_config("net"));
}

#[test]
fn solutions_and_libraries_belong_to_visual_studio() {
    let style = PathStyle::native();
    let mut config = session();
    let all = names(&["core_pkg", "net", "app"]);
    assert!(merge_sln(&style, &config, &all).ok().unwrap().is_none());
    assert!(copy_dll(&style, &config, &all).ok().unwrap().is_none());
    for name in ["app", "core_pkg"] {
        edit(&mut config, name, |cache| {
            cache.cmake_generator = "Visual Studio 17 2022".to_string();
            cache.cmake_binary_dir = "b".to_string();
            cache.cmake_pkg_name = format!("{}_cmake", name);
        });
    }
    edit(&mut config, "net", |cache| {
        cache.cmake_generator = "Ninja".to_string();
        cache.cmake_binary_dir = "n".to_string();
    });
    let plan = merge_sln(&style, &config, &all).ok().unwrap().unwrap();
    assert_eq!(plan.target_sln, "/work/app/b/app_cmake.sln");
    assert_eq!(plan.source_slns, vec!["/work/core/b/core_pkg_cmake.sln"]);
    assert_eq!(plan.merged_names, vec!["core_pkg"]);
    assert_eq!(plan.skipped_names, vec!["net"]);
    let copy = copy_dll(&style, &config, &all).ok().unwrap().unwrap();
    assert_eq!(copy.target_sln, plan.target_sln);
    assert_eq!(copy.source_dirs, vec!["/work/core/b", "/work/net/n"]);
    assert_eq!(copy.build_type, "RelWithDebInfo");
    assert!(merge_sln(&style, &config, &names(&["x"])).is_err());
    edit(&mut config, "core_pkg", |cache| cache.cmake_pkg_name = String::new());
    assert!(merge_sln(&style, &config, &all).is_err());
    let dirs = copy_compile_commands(&style, &config, "net").ok().unwrap().unwrap();
    assert_eq!(dirs.repo_dir, "/work/net");
    assert_eq!(dirs.binary_dir, "/work/net/n");
    assert!(copy_compile_commands(&style, &config, "x").is_err());
}

#[test]
fn settings_for_jobs_are_kept() {
    assert_eq!(CMakeBuildParallel::Disabled.to_setting(), StoredCMakeBuildParallel::Bool(false));
    assert_eq!(CMakeBuildParallel::Auto.to_setting(), StoredCMakeBuildParallel::Bool(true));
    assert_eq!(CMakeBuildParallel::Jobs(6).to_setting(), StoredCMakeBuildParallel::Int(6));
}

#[test]
fn missing_settings_end_the_session() {
    let unnamed = load_or_create_file_config(&RunArgs::default());
    assert!(unnamed.create);
    assert_eq!(
        unnamed.message,
        "Created default config at multi_repo_debug_param.json. Please edit the file and run: multi_repo_debug_tool -c multi_repo_debug_param.json"
    );
    let args = RunArgs { config_file: Some("x.json".to_string()), ..Default::default() };
    let named = load_or_create_file_config(&args);
    assert!(!named.create);
    assert_eq!(named.message, "Config file not found: x.json");
}

fn steps(args: &RunArgs, fail_at: &[RunAction], same: bool) -> (Vec<RunAction>, Option<String>) {
    let mut session = Session::new(args);
    let mut seen = Vec::new();
    while session.action() != RunAction::Finish {
        let action = session.action();
        seen.push(action);
        session.advance(if fail_at.contains(&action) {
            RunEvent::Failed(Error::new(&format!("{:?} failed", action)))
        } else if action == RunAction::SortAgain {
            RunEvent::Sorted { same }
        } else {
            RunEvent::Done
        });
    }
    (seen, session.outcome().err().map(|e| e.message))
}

#[test]
fn sessions_go_through_their_steps() {
    let plain = RunArgs::default();
    let all = vec![
        RunAction::InstallPackages,
        RunAction::Build,
        RunAction::MakeDatabases,
        RunAction::PublishDatabases,
        RunAction::MergeSolutions,
        RunAction::CopyLibraries,
    ];
    assert_eq!(steps(&plain, &[], true), (all.clone(), None));
    let (seen, error) = steps(&plain, &[RunAction::Build, RunAction::MergeSolutions], true);
    assert_eq!(seen, all[..5].to_vec());
    assert_eq!(error, Some("Build failed".to_string()));
    let (seen, error) = steps(&plain, &[RunAction::InstallPackages], true);
    assert_eq!(seen, vec![RunAction::InstallPackages]);
    assert_eq!(error, Some("InstallPackages failed".to_string()));
    let merge = RunArgs { enable_merge: true, ..Default::default() };
    let (seen, error) = steps(&merge, &[], false);
    assert_eq!(seen, vec![RunAction::MergeBranches, RunAction::SortAgain]);
    assert_eq!(
        error,
        Some("Dependency graph changed after git merge. Please re-run the tool.".to_string())
    );
    assert_eq!(steps(&merge, &[], true).0.len(), 8);
    assert_eq!(steps(&merge, &[RunAction::MergeBranches], true).0, vec![RunAction::MergeBranches]);
    let look = RunArgs { check_only: true, ..Default::default() };
    assert_eq!(steps(&look, &[], true), (Vec::new(), None));
    let look_and_merge = RunArgs { check_only: true, enable_merge: true, ..Default::default() };
    assert_eq!(steps(&look_and_merge, &[], true), (Vec::new(), None));
    assert_eq!(steps(&plain, &[RunAction::CopyLibraries], true).1, Some("CopyLibraries failed".to_string()));
}
