use repo_debug::build_fix::error_patterns::{
    lnk_obj_vcxproj_regex, CAP_OBJ, CAP_VCXPROJ, LNK_OBJ_VCXPROJ_PATTERN,
};
use repo_debug::build_fix::vcxproj_target_clean_first::{
    FixError, FixPlan, VcxprojTargetCleanFirstFixer,
};
use repo_debug::build_fix::{try_fixers, CommandErrorFixer, FixActionResult, FixContext};
use repo_debug::cmake_build_install::{
    append_parallel_args, build_and_install, find_cmake_config_dir, get_ms_build_path,
    load_install_manifest_txt, program_files, repairs_linker_failures, supplement_content,
    fix_event, supplement_other_cmake_config, BuildEvent, BuildFailure, BuildInstallInput, BuildInstallTask,
    BuildLoop, BuildStep, CMakeBuildParallel, ManifestError, SupplementError, MAX_FIX_ATTEMPTS,
};
use repo_debug::conan_executor::{
    conan_install, conan_install_output, conan_install_skipped, conan_toolchain_path,
    extract_generators_folder, ConanError, ConanInstallInput, ConanInstallTask,
};
use repo_debug::dll_copy_util::{
    copy_dll, dll_target, find_build_out_dir_from_sln_file, find_build_out_dir_from_vcxproj_file,
    find_build_out_dir_in_nodes, installed_dlls, project_files_with_out_dir, DllAction, FileStamp,
    XmlNode,
};
use repo_debug::error::{Error, FileText};
use repo_debug::paths::PathStyle;
use repo_debug::sln::parse_sln;
use repo_debug::task::TaskMeta;

fn collect_args(build_parallel: &CMakeBuildParallel) -> Vec<String> {
    let mut arguments: Vec<String> =
        ["--build", "build", "--config", "Debug"].iter().map(|s| s.to_string()).collect();
    append_parallel_args(&mut arguments, build_parallel);
    arguments
}

#[test]
fn build_parallel_disabled_adds_no_parallel_arg() {
    assert_eq!(
        collect_args(&CMakeBuildParallel::Disabled),
        vec!["--build", "build", "--config", "Debug"]
    );
}

#[test]
fn build_parallel_auto_adds_parallel_without_jobs() {
    assert_eq!(
        collect_args(&CMakeBuildParallel::Auto),
        vec!["--build", "build", "--config", "Debug", "--parallel"]
    );
}

#[test]
fn build_parallel_jobs_adds_parallel_with_jobs() {
    assert_eq!(
        collect_args(&CMakeBuildParallel::Jobs(4)),
        vec!["--build", "build", "--config", "Debug", "--parallel", "4"]
    );
}

fn input(need_install: bool, binary_dir: &str) -> BuildInstallInput {
    BuildInstallInput {
        repo_path: "/w/app".to_string(),
        build_config: "Debug".to_string(),
        need_install,
        cmake_pkg_name: "app".to_string(),
        install_prefix: "/w/app/install".to_string(),
        cmake_binary_dir: binary_dir.to_string(),
        build_parallel: CMakeBuildParallel::Auto,
        cmake_generator: "Ninja".to_string(),
    }
}

#[test]
fn builds_run_below_the_repository() {
    let style = PathStyle::native();
    let plan = build_and_install(&style, &input(true, "/w/app/out/b")).unwrap();
    assert_eq!(plan.rel_binary_prefix, "out/b");
    assert_eq!(plan.build_arguments, vec!["--build", "out/b", "--config", "Debug", "--parallel"]);
    assert_eq!(
        plan.install_arguments.unwrap(),
        vec!["--install", "out/b", "--config", "Debug"]
    );
    let executable = build_and_install(&style, &input(false, "/w/app/out/b")).unwrap();
    assert!(executable.install_arguments.is_none());
    assert!(build_and_install(&style, &input(true, "relative")).is_none());
    let task = BuildInstallTask::new(Ok("msbuild".to_string()), 1);
    assert_eq!(task.id(), "build_install");
    assert!(repairs_linker_failures("Visual Studio 17 2022"));
    assert!(!repairs_linker_failures("Ninja"));
    assert_eq!(get_ms_build_path(" /msbuild.exe\r\n"), "/msbuild.exe");
    let some = |s: &str| Some(s.to_string());
    assert_eq!(program_files(some("/pf86"), some("/pf")), some("/pf86"));
    assert_eq!(program_files(None, some("/pf")), some("/pf"));
}

#[test]
fn builds_are_repaired_until_the_limit() {
    let mut build = BuildLoop::new();
    assert!(build.next_step(BuildEvent::Started) == BuildStep::RunBuild);
    for i in 1..MAX_FIX_ATTEMPTS {
        assert!(build.next_step(BuildEvent::Failed) == BuildStep::TryFix);
        assert_eq!(build.attempt(), i);
        assert!(build.next_step(BuildEvent::FixApplied) == BuildStep::RunBuild);
    }
    assert!(build.next_step(BuildEvent::Failed) == BuildStep::TryFix);
    assert!(
        build.next_step(BuildEvent::FixApplied) == BuildStep::GiveUp(BuildFailure::LimitReached)
    );
    let mut other = BuildLoop::new();
    assert!(other.next_step(BuildEvent::Succeeded) == BuildStep::Done);
    assert!(
        other.next_step(BuildEvent::FailedUnexpectedly)
            == BuildStep::GiveUp(BuildFailure::Unexpected)
    );
    assert!(
        other.next_step(BuildEvent::FixNotHandled) == BuildStep::GiveUp(BuildFailure::NotFixed)
    );
    assert!(other.next_step(BuildEvent::FixFailed) == BuildStep::GiveUp(BuildFailure::FixerFailed));
}

const FAILURE: &str = "main.obj : fatal error LNK1136: invalid or corrupt file [/b/app.vcxproj]\n\
    main.obj : fatal error LNK1136: invalid or corrupt file [/b/app.vcxproj]\n\
    util.obj : fatal error LNK1136: invalid [/b/util.vcxproj]\n";

fn fix_context() -> FixContext<'static> {
    FixContext {
        repo_path: "/w/app",
        rel_binary_prefix: "out",
        build_config: "Debug",
        attempt: 1,
        max_attempts: MAX_FIX_ATTEMPTS,
    }
}

#[test]
fn linker_failures_are_found() {
    let pair = |a: &str, b: &str| (a.to_string(), b.to_string());
    assert_eq!(
        lnk_obj_vcxproj_regex(FAILURE).unwrap(),
        vec![
            pair("main.obj", "/b/app.vcxproj"),
            pair("main.obj", "/b/app.vcxproj"),
            pair("util.obj", "/b/util.vcxproj")
        ]
    );
    assert!(lnk_obj_vcxproj_regex("error C2065").unwrap().is_empty());
    assert!(LNK_OBJ_VCXPROJ_PATTERN.contains(CAP_OBJ));
    assert!(LNK_OBJ_VCXPROJ_PATTERN.contains(CAP_VCXPROJ));
}

#[test]
fn first_failure_is_rebuilt_once() {
    let style = PathStyle::native();
    let mut fixer = VcxprojTargetCleanFirstFixer::new(Ok("msbuild".to_string()));
    let repaired = match fixer.try_fix(&style, FAILURE, &fix_context()) {
        Ok(FixPlan::Rebuild { program, arguments, target, vcxproj, pairs }) => {
            assert_eq!(program, "msbuild");
            assert_eq!(
                arguments,
                vec![
                    "/b/app.vcxproj",
                    "/t:Clean;Build",
                    "/p:Configuration=Debug",
                    "/p:BuildProjectReferences=false"
                ]
            );
            assert_eq!(target, "app");
            assert_eq!(vcxproj, "/b/app.vcxproj");
            assert_eq!(pairs.len(), 2);
            pairs
        }
        _ => panic!("expected a repair"),
    };
    fixer.record_fixed(&repaired);
    assert!(matches!(
        fixer.try_fix(&style, FAILURE, &fix_context()),
        Err(FixError::SeenBefore)
    ));
    assert!(matches!(
        fixer.try_fix(&style, "fine", &fix_context()),
        Ok(FixPlan::NotHandled)
    ));
    let helpless = VcxprojTargetCleanFirstFixer::new(Err("no tool".to_string()));
    assert!(matches!(
        helpless.try_fix(&style, FAILURE, &fix_context()),
        Err(FixError::NoBuildTool(why)) if why == "no tool"
    ));
    assert!(matches!(
        VcxprojTargetCleanFirstFixer::parse_target(&style, "/"),
        Err(FixError::NoTarget(_))
    ));
    assert!(FixActionResult::Applied != FixActionResult::NotHandled);
}

fn names(list: &[&str]) -> Vec<String> {
    list.iter().map(|s| s.to_string()).collect()
}

#[test]
fn package_configurations_are_found_among_installed_files() {
    let style = PathStyle::native();
    let files = names(&[
        "/i/lib/cmake/core/core-targets.cmake",
        "/i/lib/cmake/core/CoreConfig.cmake",
        "/i/include/core.h",
    ]);
    assert_eq!(find_cmake_config_dir(&style, &files, "Core"), Some("/i/lib/cmake/core".to_string()));
    assert_eq!(
        find_cmake_config_dir(&style, &names(&["/i/x/core-extra.CMAKE"]), "core"),
        Some("/i/x".to_string())
    );
    assert_eq!(find_cmake_config_dir(&style, &files, "other"), None);
    assert_eq!(load_install_manifest_txt(FileText::Text("x".to_string())).unwrap(), "x");
    assert!(matches!(load_install_manifest_txt(FileText::Missing), Err(ManifestError::Missing)));
    assert!(matches!(
        load_install_manifest_txt(FileText::Unreadable),
        Err(ManifestError::Unreadable)
    ));
}

/// Gives the answers it was told to give, and counts how often it was asked.
struct Told {
    answer: fn() -> Result<FixActionResult, Error>,
    asked: usize,
}

impl CommandErrorFixer for Told {
    fn try_fix(&mut self, output: &str, ctx: &mut FixContext<'_>) -> Result<FixActionResult, Error> {
        assert_eq!(output, "LNK2019");
        ctx.attempt += 1;
        self.asked += 1;
        (self.answer)()
    }
}

#[test]
fn repairers_are_asked_until_one_answers() {
    let not_handled = || Ok(FixActionResult::NotHandled);
    let applied = || Ok(FixActionResult::Applied);
    let ask = |answers: &[fn() -> Result<FixActionResult, Error>]| {
        let mut fixers: Vec<Told> =
            answers.iter().map(|answer| Told { answer: *answer, asked: 0 }).collect();
        let mut ctx = FixContext {
            repo_path: "/r",
            rel_binary_prefix: "build",
            build_config: "Debug",
            attempt: 0,
            max_attempts: MAX_FIX_ATTEMPTS,
        };
        let outcome = try_fixers(&mut fixers, "LNK2019", &mut ctx);
        let asked: Vec<usize> = fixers.iter().map(|fixer| fixer.asked).collect();
        (outcome, asked, ctx.attempt)
    };
    let (outcome, asked, attempt) = ask(&[not_handled, applied, not_handled]);
    assert!(matches!(outcome, Ok(FixActionResult::Applied)));
    assert!(matches!(fix_event(&outcome), BuildEvent::FixApplied));
    assert_eq!((asked, attempt), (vec![1, 1, 0], 2));
    let (outcome, asked, _) = ask(&[not_handled, not_handled]);
    assert!(matches!(fix_event(&outcome), BuildEvent::FixNotHandled));
    assert_eq!(asked, vec![1, 1]);
    let (outcome, asked, _) = ask(&[|| Err(Error::new("broken")), applied]);
    assert!(matches!(fix_event(&outcome), BuildEvent::FixFailed));
    assert_eq!(outcome.err().unwrap().message, "broken");
    assert_eq!(asked, vec![1, 0]);
    assert!(matches!(ask(&[]).0, Ok(FixActionResult::NotHandled)));
}

#[test]
fn release_builds_find_other_configurations() {
    let style = PathStyle::native();
    let manifest = "/i/core-relwithdebinfo.cmake\n/i/core.cmake\n";
    let steps = supplement_other_cmake_config(&style, manifest, "RelWithDebInfo");
    let made: Vec<(String, String)> = steps
        .into_iter()
        .map(|step| step.unwrap_or_else(|_| panic!("every path has a name")))
        .map(|file| (file.source, file.target))
        .collect();
    assert_eq!(
        made,
        vec![("/i/core-relwithdebinfo.cmake".to_string(), "/i/core-release.cmake".to_string())]
    );
    assert!(supplement_other_cmake_config(&style, manifest, "Debug").is_empty());
    let kelvin = "/i/foo-relwithdebinfo.cma\u{212A}e";
    let steps = supplement_other_cmake_config(&style, kelvin, "RelWithDebInfo");
    assert_eq!(steps.len(), 1);
    assert_eq!(steps[0].as_ref().ok().unwrap().target, "/i/foo-r-release.cmake");
    let parted = "/i/\u{e9}-\u{212A}.cmake";
    let steps = supplement_other_cmake_config(&style, parted, "K");
    assert!(matches!(&steps[0], Err(SupplementError::NameTooShort(path)) if path == parted));
    assert_eq!(
        supplement_content("RelWithDebInfo RELWITHDEBINFO", &None, "RelWithDebInfo"),
        Some("Release RELEASE".to_string())
    );
    assert_eq!(
        supplement_content("RelWithDebInfo", &Some("Release".to_string()), "RelWithDebInfo"),
        None
    );
    let short = SupplementError::NoFileName("x".to_string());
    assert!(matches!(short, SupplementError::NoFileName(_)));
}

fn conan_input(need_install: bool, need_update: bool) -> ConanInstallInput {
    ConanInstallInput {
        repo_dir: "/w/app".to_string(),
        extra_conan_options: names(&["-s", "x"]),
        conan_output_folder: "conan".to_string(),
        need_install,
        need_update,
    }
}

#[test]
fn packages_are_installed_where_something_changed() {
    let first = conan_install(&conan_input(false, false), "recipe", None);
    assert_eq!(
        first.arguments.unwrap(),
        vec![
            "install",
            ".",
            "--output-folder",
            "conan",
            "--format=json",
            "-s",
            "x",
            "--update"
        ]
    );
    let same = conan_install(&conan_input(false, false), "recipe", Some(first.fingerprint));
    assert!(same.arguments.is_none());
    assert_eq!(same.fingerprint, first.fingerprint);
    let demanded = conan_install(&conan_input(true, false), "recipe", Some(first.fingerprint));
    assert_eq!(demanded.arguments.unwrap().len(), 7);
    let changed = conan_install(&conan_input(false, false), "recipe 2", Some(first.fingerprint));
    assert!(changed.arguments.is_some());
    assert_eq!(ConanInstallTask {}.id(), "conan_install");
}

#[test]
fn toolchains_are_found_in_the_output() {
    let style = PathStyle::native();
    let json = br#"{"graph":{"nodes":{"0":{"generators_folder":"/w/app/conan/gen"}}}}"#.to_vec();
    assert_eq!(extract_generators_folder(&json), Some("/w/app/conan/gen".to_string()));
    assert_eq!(
        conan_toolchain_path(&style, &json).unwrap(),
        "/w/app/conan/gen/conan_toolchain.cmake"
    );
    assert!(matches!(
        conan_toolchain_path(&style, &b"{}".to_vec()),
        Err(ConanError::NoGeneratorsFolder)
    ));
    let read = |file| conan_install_output("/t".to_string(), file);
    let output = read(FileText::Text("set(X 1)".to_string())).ok().unwrap();
    assert_eq!(output.conan_toolchain_path.as_deref(), Some("/t"));
    assert!(output.new_conan_toolchain_hash.is_some());
    assert!(matches!(read(FileText::Missing), Err(ConanError::NoToolchain(p)) if p == "/t"));
    assert!(matches!(read(FileText::Unreadable), Err(ConanError::UnreadableToolchain(_))));
    assert!(conan_install_skipped().conan_toolchain_path.is_none());
}

const PROJECT: &str = r#"<?xml version="1.0" encoding="utf-8"?>
<Project xmlns="http://schemas.microsoft.com/developer/msbuild/2003">
  <PropertyGroup>
    <OutDir Condition="'$(Configuration)|$(Platform)'=='Debug|x64'">/b/Debug/</OutDir>
    <OutDir Condition="'$(Configuration)|$(Platform)'=='Release|x64'">bin/Release/</OutDir>
  </PropertyGroup>
</Project>"#;

#[test]
fn output_directories_are_read_from_project_files() {
    let style = PathStyle::native();
    let find = |content: &str, config: &str| {
        find_build_out_dir_from_vcxproj_file(&style, "/w/b/app.vcxproj", content, config)
    };
    assert_eq!(find(PROJECT, "Debug"), Some("/b/Debug/".to_string()));
    assert_eq!(find(PROJECT, "Release"), Some("/w/b/bin/Release/".to_string()));
    assert_eq!(find(PROJECT, "MinSizeRel"), None);
    assert_eq!(find("<broken", "Debug"), None);
    let nodes = vec![XmlNode {
        depth: 1,
        tag: "Project".to_string(),
        attribute: None,
        text: None,
    }];
    assert_eq!(find_build_out_dir_in_nodes(&style, "/p", &nodes, "Debug"), None);
    let text = "Project(\"{T}\") = \"a\", \"a.vcxproj\", \"{A}\"\nEndProject\nProject(\"{T}\") = \"b\", \"../b.vcxproj\", \"{B}\"\nEndProject\nGlobal\nEndGlobal\n";
    let text = format!("Project(\"{{T}}\") = \"z\", \"z.vcxproj\", \"{{Z}}\"\nEndProject\n{}", text);
    let solution = parse_sln(&text).ok().unwrap();
    assert_eq!(
        project_files_with_out_dir(&style, "/w/b/app.sln", &solution),
        vec!["/w/b/z.vcxproj", "/w/b/a.vcxproj"]
    );
    let look = |contents: Vec<FileText>| {
        find_build_out_dir_from_sln_file(&style, "/w/b/app.sln", &solution, &contents, "Release")
    };
    let second = vec![FileText::Missing, FileText::Text(PROJECT.to_string())];
    assert_eq!(look(second).unwrap(), "/w/b/bin/Release/");
    assert_eq!(
        look(vec![FileText::Missing, FileText::Unreadable]).unwrap_err().message,
        "Failed to find build output directory from sln file '/w/b/app.sln'"
    );
}

#[test]
fn project_files_with_too_many_namespaces_are_not_read() {
    let style = PathStyle::native();
    let find = |count: usize| {
        let declared = "<a xmlns=\"u\"/>".repeat(count);
        let content = PROJECT.replace("  <PropertyGroup>", &format!("{}<PropertyGroup>", declared));
        find_build_out_dir_from_vcxproj_file(&style, "/w/b/app.vcxproj", &content, "Debug")
    };
    assert_eq!(find(100), Some("/b/Debug/".to_string()));
    assert_eq!(find(65536), None);
}

#[test]
fn libraries_are_copied_where_they_differ() {
    let style = PathStyle::native();
    assert_eq!(
        installed_dlls("/i/bin/a.dll\n/i/lib/a.lib\n  /i/bin/B.DLL \n\n"),
        vec!["/i/bin/a.dll", "/i/bin/B.DLL"]
    );
    assert_eq!(dll_target(&style, "/out", "/i/bin/a.dll"), Some("/out/a.dll".to_string()));
    let stamp = |size, modified| FileStamp { size, modified };
    let act = |source, target| copy_dll(&style, "/out", "/i/bin/a.dll", source, target);
    assert!(matches!(act(None, None), DllAction::SkipMissing));
    assert!(matches!(act(Some(stamp(1, 5)), None), DllAction::Copy(to) if to == "/out/a.dll"));
    assert!(matches!(act(Some(stamp(1, 5)), Some(stamp(1, 5))), DllAction::UpToDate));
    assert!(matches!(act(Some(stamp(1, 5)), Some(stamp(2, 9))), DllAction::Copy(_)));
    assert!(matches!(act(Some(stamp(1, 5)), Some(stamp(1, 4))), DllAction::Copy(_)));
    assert!(matches!(
        copy_dll(&style, "/out", "/", Some(stamp(1, 5)), None),
        DllAction::NoFileName
    ));
}
