use repo_debug::compile_commands::{
    calculate_compile_commands_input_hash, ensure_compile_commands_not_empty,
    finish_compile_commands, make_compile_commands, plan_publication, publish_compile_commands,
    should_skip_compile_commands_rebuild,
    CompileCommandsConfig, CompileCommandsError, CompileCommandsFingerprint, CompileCommandsInput,
    CompileCommandsPlan, CompileCommandsTask, StoredFingerprint,
};
use repo_debug::hash::hash_bytes;
use repo_debug::paths::{PathContext, PathStyle};
use repo_debug::task::TaskMeta;

fn context() -> PathContext {
    PathContext::new(PathStyle::native(), "/work".to_string()).unwrap()
}

#[test]
fn compile_commands_is_disabled_without_solution_path() {
    let config = CompileCommandsConfig { options: Vec::new(), enabled: true };
    let input = CompileCommandsInput { compile_commands_config: &config, sln_path: None };

    assert!(!input.is_enabled());
}

#[test]
fn skip_when_input_and_output_hash_match() {
    let last = CompileCommandsFingerprint {
        compile_commands_input_hash: 11,
        compile_commands_output_hash: 22,
    };
    assert!(should_skip_compile_commands_rebuild(last, 11, Some(22)));
}

#[test]
fn rebuild_when_output_file_missing_or_unreadable() {
    let last = CompileCommandsFingerprint {
        compile_commands_input_hash: 11,
        compile_commands_output_hash: 22,
    };
    assert!(!should_skip_compile_commands_rebuild(last, 11, None));
}

#[test]
fn rebuild_when_output_hash_changed() {
    let last = CompileCommandsFingerprint {
        compile_commands_input_hash: 11,
        compile_commands_output_hash: 22,
    };
    assert!(!should_skip_compile_commands_rebuild(last, 11, Some(33)));
}

#[test]
fn rebuild_when_input_hash_changed() {
    let last = CompileCommandsFingerprint {
        compile_commands_input_hash: 11,
        compile_commands_output_hash: 22,
    };
    assert!(!should_skip_compile_commands_rebuild(last, 44, Some(22)));
}

fn written(text: &str) -> Vec<u8> {
    text.as_bytes().to_vec()
}

#[test]
fn publish_compile_commands_to_first_binary_dir_component() {
    let database = written(r#"[{"file":"main.cpp"}]"#);
    let plan = publish_compile_commands(
        &context(),
        "/work/nested",
        "/work/nested/out/build/debug",
        &database,
    )
    .unwrap();

    assert_eq!(plan.publish_path, "/work/nested/out/compile_commands.json");
    assert_eq!(plan.source_path, "/work/nested/out/build/debug/compile_commands.json");
    assert!(plan.copy);
}

#[test]
fn publish_compile_commands_skips_copy_when_source_is_already_published() {
    let database = written(r#"[{"file":"main.cpp"}]"#);
    let plan = publish_compile_commands(
        &context(),
        "/work/same_path",
        "/work/same_path/build",
        &database,
    )
    .unwrap();

    assert_eq!(plan.publish_path, plan.source_path);
    assert_eq!(plan.publish_path, "/work/same_path/build/compile_commands.json");
    assert!(!plan.copy);
}

#[test]
fn publish_compile_commands_rejects_empty_database() {
    let error =
        publish_compile_commands(&context(), "/work/empty", "/work/empty/out/build", &written("[]"))
            .err()
            .unwrap();

    assert!(error.message("compile_commands.json").contains("compile_commands JSON is empty"));
}

#[test]
fn databases_are_published_relative_to_the_repository() {
    let here = context();
    let plan = plan_publication(&here, "repo", "repo/../repo/out/x").unwrap();
    assert_eq!(plan.publish_path, "/work/repo/out/compile_commands.json");
    let root = publish_compile_commands(&here, "repo", "repo", &written("[1]")).unwrap();
    assert_eq!(root.publish_path, "/work/repo/compile_commands.json");
    assert!(!root.copy);
    assert!(matches!(
        publish_compile_commands(&here, "/work/repo", "/elsewhere/out", &written("[]")),
        Err(CompileCommandsError::OutsideRepo { .. })
    ));
    assert!(matches!(
        publish_compile_commands(&here, "/work/repo", "/work/repo/out", &written("{}")),
        Err(CompileCommandsError::Malformed { .. })
    ));
}

#[test]
fn databases_are_known_by_what_they_hold() {
    let mark = finish_compile_commands(7, &written("[1]")).unwrap();
    assert_eq!(mark.compile_commands_input_hash, 7);
    assert_eq!(mark.compile_commands_output_hash, hash_bytes(&written("[1]")));
    assert!(matches!(
        finish_compile_commands(7, &written("[]")),
        Err(CompileCommandsError::Empty { .. })
    ));
}

#[test]
fn databases_must_be_lists_with_members() {
    assert!(ensure_compile_commands_not_empty(&"\u{feff}[1]".as_bytes().to_vec()).is_ok());
    assert!(ensure_compile_commands_not_empty(&b"{}".to_vec()).is_err());
    assert!(ensure_compile_commands_not_empty(&b"not json".to_vec()).is_err());
}

#[test]
fn input_hash_rests_on_options_and_projects() {
    let none: Vec<String> = Vec::new();
    let a = vec!["a".to_string()];
    let empty = calculate_compile_commands_input_hash(&none, &none);
    assert_eq!(empty, calculate_compile_commands_input_hash(&none, &none));
    let option = calculate_compile_commands_input_hash(&a, &none);
    let project = calculate_compile_commands_input_hash(&none, &a);
    assert_ne!(empty, option);
    assert_ne!(option, project);
}

#[test]
fn legacy_fingerprints_have_no_output_hash() {
    let legacy = CompileCommandsFingerprint::from_stored(StoredFingerprint::Legacy(7));
    assert_eq!(legacy.compile_commands_input_hash, 7);
    assert_eq!(legacy.compile_commands_output_hash, 0);
    let stored = StoredFingerprint::Structured { input_hash: 1, output_hash: 2 };
    let structured = CompileCommandsFingerprint::from_stored(stored);
    assert_eq!(structured.compile_commands_input_hash, 1);
    assert_eq!(structured.compile_commands_output_hash, 2);
    assert_eq!(CompileCommandsFingerprint::default().compile_commands_input_hash, 0);
}

#[test]
fn databases_are_made_for_solutions_with_a_script() {
    let here = context();
    let task = CompileCommandsTask::new(Ok("/tools/clang-build.ps1".to_string()));
    assert_eq!(task.id(), "compile_commands");
    let config = CompileCommandsConfig { options: vec!["-x".to_string()], enabled: true };
    let input = CompileCommandsInput {
        compile_commands_config: &config,
        sln_path: Some("build/app.sln".to_string()),
    };
    assert_eq!(input.get_options(), &vec!["-x".to_string()]);
    match make_compile_commands(&here, &task.clang_build_script_path, &input, &None) {
        Ok(CompileCommandsPlan::Check { script_path, sln_path, json_path, last }) => {
            assert_eq!(script_path, "/tools/clang-build.ps1");
            assert_eq!(sln_path, "/work/build/app.sln");
            assert_eq!(json_path, "/work/build/compile_commands.json");
            assert_eq!(last.compile_commands_input_hash, 0);
        }
        _ => panic!("expected a check"),
    }
    let no_script = Err("no clang power tools".to_string());
    assert!(make_compile_commands(&here, &no_script, &input, &None).is_err());
    let disabled = CompileCommandsInput { compile_commands_config: &config, sln_path: None };
    assert!(matches!(
        make_compile_commands(&here, &no_script, &disabled, &None),
        Ok(CompileCommandsPlan::Keep(_))
    ));
}
