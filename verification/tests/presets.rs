use repo_debug::cmake_configure::{
    check_preset_conditions, cmake_configure, cmake_configure_output, contains_preset_macro,
    convert_to_cmake_path, decide_configure, find_based_preset,
    parse_cmake_project_name_from_cache, prepare_base_preset_candidates, prepare_dev_preset,
    resolve_repo_relative_preset_path, update_dev_preset_from_base, CMakeConfigureFingerprint,
    CMakeConfigureInfo, CMakeConfigureTask, CMakeDependencyInfo, PresetError,
};
use repo_debug::cmake_presets::{
    decode_with_label, expand_cmake_preset_inheritance, inherits_of, parse_cmake_presets,
    read_json_file_to_string, CMakePresets, CacheValue, CacheVariables, ConfigurePreset,
    EncodingError, StringOrVec,
};
use repo_debug::paths::{PathContext, PathStyle};
use repo_debug::task::TaskMeta;

const DEV_PRESET_NAME: &str = "multi_repo_dev_config";

fn context() -> PathContext {
    PathContext::new(PathStyle::native(), "/work".to_string()).unwrap()
}

fn variables(entries: &[(&str, &str)]) -> Option<CacheVariables> {
    let mut vars = CacheVariables::new();
    for (name, value) in entries {
        vars.insert(name.to_string(), CacheValue::Text(value.to_string()));
    }
    Some(vars)
}

fn value_of<'a>(preset: &'a ConfigurePreset, name: &str) -> Option<&'a str> {
    preset.cache_variables.as_ref().and_then(|vars| vars.get(name)).and_then(|v| v.as_str())
}

fn presets_with(configure_presets: Vec<ConfigurePreset>) -> CMakePresets {
    CMakePresets {
        version: 7,
        configure_presets,
        build_presets: None,
        extra: String::new(),
    }
}

fn base_preset(binary_dir: &str, install_dir: &str) -> ConfigurePreset {
    let mut base = ConfigurePreset::new_with_name("base");
    base.generator = Some("Visual Studio 17 2022".to_string());
    base.binary_dir = Some(binary_dir.to_string());
    base.cache_variables = variables(&[
        ("CMAKE_INSTALL_PREFIX", install_dir),
        ("CMAKE_CONFIGURATION_TYPES", "Debug;Release"),
    ]);
    base
}

fn child_of(name: &str, parent: &str) -> ConfigurePreset {
    let mut child = ConfigurePreset::new_with_name(name);
    child.inherits = Some(vec![parent.to_string()]);
    child
}

fn user_priority() -> (CMakePresets, CMakePresets) {
    let base = base_preset("${sourceDir}/build/base", "${sourceDir}/install");
    let mut candidate = child_of("user-candidate", "base");
    candidate.binary_dir = Some("${sourceDir}/build/user".to_string());
    let dev = child_of(DEV_PRESET_NAME, "base");
    parse_cmake_presets(presets_with(vec![base]), Some(presets_with(vec![candidate, dev])))
}

fn without_user() -> (CMakePresets, CMakePresets) {
    let base = base_preset("${sourceDir}/build", "${sourceDir}/install");
    parse_cmake_presets(presets_with(vec![base, child_of("child", "base")]), None)
}

fn preset_repo(binary_dir: &str, install_dir: &str) -> (CMakePresets, CMakePresets) {
    parse_cmake_presets(presets_with(vec![base_preset(binary_dir, install_dir)]), None)
}

#[test]
fn find_based_preset_prefers_expanded_user_preset_without_mutating_user_presets() {
    let (mut presets, user_presets) = user_priority();

    let original = &user_presets.configure_presets[0];
    assert_eq!(original.name, "user-candidate");
    assert!(original.generator.is_none());
    assert_eq!(original.binary_dir.as_deref(), Some("${sourceDir}/build/user"));
    assert!(original.cache_variables.is_none());

    assert!(prepare_base_preset_candidates(
        &mut presets.configure_presets,
        &user_presets.configure_presets
    ));

    assert_eq!(presets.configure_presets[0].name, "user-candidate");
    assert!(presets.configure_presets.iter().all(|preset| preset.name != DEV_PRESET_NAME));

    let candidate = &presets.configure_presets[0];
    assert_eq!(candidate.generator.as_deref(), Some("Visual Studio 17 2022"));
    assert_eq!(candidate.binary_dir.as_deref(), Some("${sourceDir}/build/user"));
    assert!(candidate.cache_variables.is_some());

    let base_idx =
        find_based_preset(&presets.configure_presets, "Debug", "Visual Studio", None).unwrap();
    assert_eq!(presets.configure_presets[base_idx].name, "user-candidate");

    let original = &user_presets.configure_presets[0];
    assert!(original.generator.is_none());
    assert_eq!(original.binary_dir.as_deref(), Some("${sourceDir}/build/user"));
    assert!(original.cache_variables.is_none());
}

#[test]
fn check_preset_conditions_accepts_matching_cmake_build_type() {
    let mut preset = ConfigurePreset::new_with_name("single-config");
    preset.generator = Some("Visual Studio 17 2022".to_string());
    preset.binary_dir = Some("${sourceDir}/build".to_string());
    preset.cache_variables = variables(&[
        ("CMAKE_INSTALL_PREFIX", "${sourceDir}/install"),
        ("CMAKE_BUILD_TYPE", "Debug"),
    ]);

    assert!(check_preset_conditions(&preset, "Debug", "Visual Studio"));
    assert!(!check_preset_conditions(&preset, "Release", "Visual Studio"));
}

#[test]
fn check_preset_conditions_accepts_configured_ninja_generator() {
    let mut preset = ConfigurePreset::new_with_name("ninja");
    preset.generator = Some("Ninja Multi-Config".to_string());
    preset.binary_dir = Some("${sourceDir}/build".to_string());
    preset.cache_variables = variables(&[
        ("CMAKE_INSTALL_PREFIX", "${sourceDir}/install"),
        ("CMAKE_CONFIGURATION_TYPES", "Debug;Release"),
    ]);

    assert!(check_preset_conditions(&preset, "Debug", "Ninja"));
    assert!(!check_preset_conditions(&preset, "Debug", "Visual Studio"));
}

#[test]
fn update_dev_preset_uses_base_directories_without_overriding_them() {
    let (mut presets, mut user_presets) = user_priority();
    let dev_idx = user_presets
        .configure_presets
        .iter()
        .position(|preset| preset.name == DEV_PRESET_NAME)
        .unwrap();
    user_presets.configure_presets[dev_idx].inherits = Some(vec!["user-candidate".to_string()]);
    assert!(prepare_base_preset_candidates(
        &mut presets.configure_presets,
        &user_presets.configure_presets
    ));

    let result = update_dev_preset_from_base(
        &context(),
        &presets.configure_presets,
        &mut user_presets.configure_presets,
        dev_idx,
        "Debug",
        "Visual Studio",
        &None,
        &Vec::new(),
    )
    .ok()
    .unwrap();

    assert_eq!(result.binary_dir, "${sourceDir}/build/user");
    assert_eq!(result.install_dir, "${sourceDir}/install");
    let dev_preset = &user_presets.configure_presets[dev_idx];
    assert!(dev_preset.binary_dir.is_none());
    assert!(!dev_preset
        .cache_variables
        .as_ref()
        .unwrap()
        .contains_key("CMAKE_INSTALL_PREFIX"));
}

#[test]
fn update_dev_preset_toggles_native_compile_commands_export_with_generator() {
    let (mut presets, mut user_presets) = without_user();
    presets.configure_presets[0].generator = Some("Ninja".to_string());
    user_presets.configure_presets.push(child_of(DEV_PRESET_NAME, "base"));
    let dev_idx = user_presets.configure_presets.len() - 1;
    assert!(prepare_base_preset_candidates(
        &mut presets.configure_presets,
        &user_presets.configure_presets
    ));

    update_dev_preset_from_base(
        &context(),
        &presets.configure_presets,
        &mut user_presets.configure_presets,
        dev_idx,
        "Debug",
        "Ninja",
        &None,
        &Vec::new(),
    )
    .ok()
    .unwrap();

    assert_eq!(
        value_of(&user_presets.configure_presets[dev_idx], "CMAKE_EXPORT_COMPILE_COMMANDS"),
        Some("ON")
    );

    presets.configure_presets[0].generator = Some("Visual Studio 17 2022".to_string());
    update_dev_preset_from_base(
        &context(),
        &presets.configure_presets,
        &mut user_presets.configure_presets,
        dev_idx,
        "Debug",
        "Visual Studio",
        &None,
        &Vec::new(),
    )
    .ok()
    .unwrap();

    assert!(!user_presets.configure_presets[dev_idx]
        .cache_variables
        .as_ref()
        .unwrap()
        .contains_key("CMAKE_EXPORT_COMPILE_COMMANDS"));
}

#[test]
fn prepare_dev_preset_returns_repo_relative_directories() {
    let (presets, user_presets) =
        preset_repo("${sourceDir}/out/build/debug", "${sourceDir}/out/install/debug");

    let result = prepare_dev_preset(
        &context(),
        "/work/repo",
        presets,
        user_presets,
        "Debug",
        "Visual Studio",
        &None,
        &Vec::new(),
    )
    .ok()
    .unwrap();

    assert_eq!(result.binary_dir, "out/build/debug");
    assert_eq!(result.install_dir, "out/install/debug");
    assert!(result.changed);
    assert_eq!(result.user_presets.configure_presets[0].name, DEV_PRESET_NAME);
}

#[test]
fn resolves_plain_relative_preset_path_from_repo_root() {
    let resolved = resolve_repo_relative_preset_path(
        &context(),
        "/work/relative_preset_path",
        "out/../build/debug",
        "binaryDir",
    )
    .unwrap();

    assert_eq!(resolved, "build/debug");
}

#[test]
fn resolves_same_volume_external_absolute_path_with_parent_components() {
    let resolved = resolve_repo_relative_preset_path(
        &context(),
        "/work/path_parent/repo",
        "/work/path_parent/external",
        "binaryDir",
    )
    .unwrap();

    assert_eq!(resolved, "../external");
}

#[test]
fn unsupported_preset_macros_fail_before_saving_user_presets() {
    for (binary_dir, install_dir, expected_message) in [
        (
            "$env{BUILD_ROOT}/build",
            "${sourceDir}/install",
            "Environment variable macros are not supported",
        ),
        (
            "$penv{BUILD_ROOT}/build",
            "${sourceDir}/install",
            "Environment variable macros are not supported",
        ),
        (
            "${sourceDir}/build",
            "${sourceParentDir}/install",
            "Unsupported unresolved macro",
        ),
    ] {
        let (presets, user_presets) = preset_repo(binary_dir, install_dir);

        let error = prepare_dev_preset(
            &context(),
            "/work/repo",
            presets,
            user_presets,
            "Debug",
            "Visual Studio",
            &None,
            &Vec::new(),
        )
        .err()
        .expect("unsupported macro should fail");

        assert!(error.message().contains(expected_message));
    }
}

#[test]
fn path_resolution_failure_does_not_modify_existing_user_presets() {
    let (presets, _) = preset_repo("$env{BUILD_ROOT}/build", "${sourceDir}/install");
    let user_presets = presets_with(vec![child_of(DEV_PRESET_NAME, "base")]);

    assert!(prepare_dev_preset(
        &context(),
        "/work/repo",
        presets,
        user_presets,
        "Debug",
        "Visual Studio",
        &None,
        &Vec::new(),
    )
    .is_err());
}

#[test]
fn reads_project_name_from_prepared_binary_directory() {
    let relative = resolve_repo_relative_preset_path(
        &context(),
        "/work/repo",
        "${sourceDir}/out/build/debug",
        "binaryDir",
    )
    .unwrap();

    assert_eq!(relative, "out/build/debug");
    assert_eq!(
        parse_cmake_project_name_from_cache("CMAKE_PROJECT_NAME:STATIC=fixture_project\n").unwrap(),
        "fixture_project"
    );
}

#[test]
fn parse_cmake_presets_fills_user_version_when_file_is_missing() {
    let (_presets, parsed_user) = without_user();

    assert_eq!(parsed_user.version, 7);
}

#[test]
fn parse_cmake_presets_does_not_expand_inheritance() {
    let (presets, _parsed_user) = without_user();

    let child = &presets.configure_presets[1];
    assert_eq!(child.name, "child");
    assert!(child.generator.is_none());
    assert!(child.binary_dir.is_none());
}

#[test]
fn inherited_fields_fill_what_is_missing() {
    let mut middle = child_of("middle", "base");
    middle.binary_dir = Some("mid".to_string());
    middle.cache_variables = variables(&[("X", "middle")]);
    let mut leaf = child_of("leaf", "middle");
    leaf.cache_variables = variables(&[("Y", "leaf")]);
    let mut presets = vec![leaf, middle, base_preset("base-dir", "prefix")];
    assert!(expand_cmake_preset_inheritance(&mut presets));
    assert_eq!(presets[0].generator.as_deref(), Some("Visual Studio 17 2022"));
    assert_eq!(presets[0].binary_dir.as_deref(), Some("mid"));
    assert_eq!(value_of(&presets[0], "X"), Some("middle"));
    assert_eq!(value_of(&presets[0], "Y"), Some("leaf"));
    assert_eq!(value_of(&presets[0], "CMAKE_INSTALL_PREFIX"), Some("prefix"));
    assert_eq!(presets[2].binary_dir.as_deref(), Some("base-dir"));
    assert!(expand_cmake_preset_inheritance(&mut presets));
    assert_eq!(value_of(&presets[0], "X"), Some("middle"));
}

#[test]
fn cyclic_inheritance_comes_to_no_end() {
    let mut presets = vec![child_of("a", "b"), child_of("b", "a")];
    assert!(!expand_cmake_preset_inheritance(&mut presets));
    let result = prepare_dev_preset(
        &context(),
        "/work/repo",
        presets_with(vec![child_of("a", "b"), child_of("b", "a")]),
        presets_with(Vec::new()),
        "Debug",
        "Visual Studio",
        &None,
        &Vec::new(),
    );
    assert!(matches!(result, Err(PresetError::CyclicInheritance)));
}

#[test]
fn presets_that_suit_nothing_are_refused() {
    let presets = vec![base_preset("b", "i")];
    let error = find_based_preset(&presets, "RelWithDebInfo", "Visual Studio", None).unwrap_err();
    assert_eq!(
        error.message(),
        "No suitable CMake preset found for config 'RelWithDebInfo'. Required: generator containing 'Visual Studio', binaryDir, CMAKE_INSTALL_PREFIX, and either CMAKE_CONFIGURATION_TYPES containing 'RelWithDebInfo' or CMAKE_BUILD_TYPE equal to 'RelWithDebInfo'"
    );
    assert_eq!(find_based_preset(&presets, "Debug", "Visual Studio", Some(5)).unwrap(), 0);
}

#[test]
fn dev_presets_name_the_packages_and_the_toolchain() {
    let (presets, user_presets) = preset_repo("${sourceDir}/build", "${sourceDir}/install");
    let result = prepare_dev_preset(
        &context(),
        "/work/repo",
        presets,
        user_presets,
        "Debug",
        "Visual Studio",
        &Some("/work/repo/conan/conan_toolchain.cmake".to_string()),
        &vec![CMakeDependencyInfo {
            cmake_pkg_name: "core".to_string(),
            cmake_pkg_config_dir: "/work/core/install/cmake".to_string(),
        }],
    )
    .ok()
    .unwrap();
    let dev = &result.user_presets.configure_presets[0];
    assert_eq!(value_of(dev, "core_DIR"), Some("/work/core/install/cmake"));
    assert_eq!(
        value_of(dev, "CMAKE_TOOLCHAIN_FILE"),
        Some("/work/repo/conan/conan_toolchain.cmake")
    );
    assert_eq!(dev.inherits, Some(vec!["base".to_string()]));
    assert_eq!(result.cmake_generator, "Visual Studio 17 2022");

    let (presets, _) = preset_repo("${sourceDir}/build", "${sourceDir}/install");
    let again = prepare_dev_preset(
        &context(),
        "/work/repo",
        presets,
        result.user_presets,
        "Debug",
        "Visual Studio",
        &Some("/work/repo/conan/conan_toolchain.cmake".to_string()),
        &vec![CMakeDependencyInfo {
            cmake_pkg_name: "core".to_string(),
            cmake_pkg_config_dir: "/work/core/install/cmake".to_string(),
        }],
    )
    .ok()
    .unwrap();
    assert!(!again.changed);
    assert_eq!(again.parts, result.parts);
}

#[test]
fn macros_are_told_from_text() {
    assert!(contains_preset_macro("a${b}"));
    assert!(contains_preset_macro("$env{X}"));
    assert!(contains_preset_macro("a$b{c"));
    assert!(!contains_preset_macro("a$b-{c"));
    assert!(!contains_preset_macro("$b"));
    assert!(!contains_preset_macro("plain"));
}

#[test]
fn cmake_paths_are_absolute() {
    assert_eq!(convert_to_cmake_path(&context(), "a/../b"), "/work/b");
}

#[test]
fn project_names_are_read_from_the_cache() {
    assert_eq!(
        parse_cmake_project_name_from_cache("# x\nOTHER:STATIC=1\nCMAKE_PROJECT_NAME:STATIC=p\n"),
        Some("p".to_string())
    );
    assert_eq!(parse_cmake_project_name_from_cache("OTHER:STATIC=1\n"), None);
    let output = cmake_configure_output(
        &context(),
        "repo",
        "out/build",
        "../install",
        "Ninja".to_string(),
        "CMAKE_PROJECT_NAME:STATIC=p\n",
    )
    .unwrap();
    assert_eq!(output.cmake_pkg_name, "p");
    assert_eq!(output.cmake_binary_dir, "/work/repo/out/build");
    assert_eq!(output.install_prefix, "/work/install");
}

fn info() -> CMakeConfigureInfo {
    CMakeConfigureInfo {
        repo_path: "/work/repo".to_string(),
        build_config: "Debug".to_string(),
        need_cmake: false,
        need_cmake_fresh: false,
        conan_toolchain_path: None,
        conan_toolchain_hash: 9,
        extra_cmake_options: vec!["-DX=1".to_string()],
        cmake_generator_keyword: "Visual Studio".to_string(),
    }
}

#[test]
fn unchanged_repositories_are_not_configured_again() {
    let (presets, user) = preset_repo("${sourceDir}/build", "${sourceDir}/install");
    let first = cmake_configure(&context(), &info(), presets, user, &Vec::new(), &None)
        .ok()
        .unwrap();
    assert!(first.need_configure && first.need_fresh);
    assert_eq!(
        first.arguments,
        vec!["--preset=multi_repo_dev_config", "-Wno-dev", "--fresh", "-DX=1"]
    );
    let (presets, _) = preset_repo("${sourceDir}/build", "${sourceDir}/install");
    let second = cmake_configure(
        &context(),
        &info(),
        presets,
        first.preset.user_presets,
        &Vec::new(),
        &Some(first.fingerprint),
    )
    .ok()
    .unwrap();
    assert!(!second.need_configure && !second.need_fresh);
    let task = CMakeConfigureTask::new(3);
    assert_eq!(task.id(), "cmake_configure");
    assert_eq!(task.vs_dev_env, 3);
}

#[test]
fn changes_decide_how_to_configure() {
    let now = CMakeConfigureFingerprint {
        executing_cmake_hash: 1,
        conan_toolchain_hash: 2,
        executing_fresh_hash: 3,
    };
    let other_cmake = CMakeConfigureFingerprint { executing_cmake_hash: 5, ..now };
    let other_toolchain = CMakeConfigureFingerprint { conan_toolchain_hash: 5, ..now };
    assert_eq!(decide_configure(false, false, &Some(now), &now), (false, false));
    assert_eq!(decide_configure(true, false, &Some(now), &now), (true, false));
    assert_eq!(decide_configure(false, true, &Some(now), &now), (true, true));
    assert_eq!(decide_configure(false, false, &Some(other_cmake), &now), (true, false));
    assert_eq!(decide_configure(false, false, &Some(other_toolchain), &now), (true, true));
    assert_eq!(decide_configure(false, false, &None, &now), (true, true));
}

#[test]
fn files_are_decoded_by_their_character_set() {
    let (text, malformed) =
        read_json_file_to_string(&"{\"a\":\"b\"}".as_bytes().to_vec()).unwrap();
    assert_eq!(text, "{\"a\":\"b\"}");
    assert!(!malformed);
    let (gbk, malformed) = decode_with_label("GB2312", &vec![0xd6, 0xd0]);
    assert_eq!(gbk, "\u{4e2d}");
    assert!(!malformed);
    let (unknown, malformed) = decode_with_label("no such set", &vec![b'a', 0xff]);
    assert!(unknown.starts_with('a'));
    assert!(malformed);
}

#[test]
fn escapes_mark_a_character_set_or_none() {
    let hiragana = b"\x1b$B$\"\x1b(B".to_vec();
    let (text, malformed) = read_json_file_to_string(&hiragana).unwrap();
    assert_eq!(text, "\u{3042}");
    assert!(!malformed);
    let bold = b"\x1b[1m".to_vec();
    assert!(matches!(read_json_file_to_string(&bold), Err(EncodingError::UnknownEscapes)));
    let chinese = "\u{1b}[1m\u{4f4f}\u{4f61}\u{4f4f}\u{4f61}\u{4f4f}\u{4f61}";
    assert!(read_json_file_to_string(&chinese.as_bytes().to_vec()).is_ok());
    let triple = vec![0x8f, 0xa1, 0xa1];
    assert!(read_json_file_to_string(&triple).is_ok());
}

#[test]
fn presets_inherit_from_one_or_many() {
    assert_eq!(inherits_of(None), None);
    let one = Some(StringOrVec::One("a".to_string()));
    assert_eq!(inherits_of(one), Some(vec!["a".to_string()]));
    let many = vec!["a".to_string(), "b".to_string()];
    assert_eq!(inherits_of(Some(StringOrVec::Many(many.clone()))), Some(many));
}

fn dependency(name: &str) -> CMakeDependencyInfo {
    CMakeDependencyInfo {
        cmake_pkg_name: name.to_string(),
        cmake_pkg_config_dir: format!("/work/{}/lib/cmake", name),
    }
}

#[test]
fn packages_in_another_order_are_the_same_packages() {
    let (presets, user) = preset_repo("${sourceDir}/build", "${sourceDir}/install");
    let first_order = vec![dependency("core"), dependency("net"), dependency("log")];
    let first =
        cmake_configure(&context(), &info(), presets, user, &first_order, &None).ok().unwrap();
    assert!(first.preset.changed);
    let (presets, _) = preset_repo("${sourceDir}/build", "${sourceDir}/install");
    let second_order = vec![dependency("log"), dependency("core"), dependency("net")];
    let second = cmake_configure(
        &context(),
        &info(),
        presets,
        first.preset.user_presets,
        &second_order,
        &Some(first.fingerprint),
    )
    .ok()
    .unwrap();
    assert!(!second.need_configure && !second.need_fresh && !second.preset.changed);
    assert_eq!(
        second.fingerprint.executing_cmake_hash,
        first.fingerprint.executing_cmake_hash
    );
    assert_eq!(
        second.fingerprint.executing_fresh_hash,
        first.fingerprint.executing_fresh_hash
    );
    assert_eq!(second.preset.binary_dir, first.preset.binary_dir);
    let (presets, _) = preset_repo("${sourceDir}/build", "${sourceDir}/install");
    let fewer = cmake_configure(
        &context(),
        &info(),
        presets,
        second.preset.user_presets,
        &vec![dependency("log")],
        &Some(first.fingerprint),
    )
    .ok()
    .unwrap();
    assert!(fewer.need_configure && fewer.need_fresh && fewer.preset.changed);
}

#[test]
fn the_first_parent_with_a_field_gives_it() {
    let mut plain = ConfigurePreset::new_with_name("plain");
    plain.cache_variables = variables(&[("A", "plain")]);
    let mut ninja = child_of("ninja", "root");
    ninja.cache_variables = variables(&[("A", "ninja"), ("B", "ninja")]);
    let mut root = ConfigurePreset::new_with_name("root");
    root.generator = Some("Ninja".to_string());
    root.binary_dir = Some("root".to_string());
    let mut other = ConfigurePreset::new_with_name("other");
    other.generator = Some("Make".to_string());
    other.binary_dir = Some("other".to_string());
    other.cache_variables = variables(&[("B", "other"), ("C", "other")]);
    let mut child = ConfigurePreset::new_with_name("child");
    child.binary_dir = Some("own".to_string());
    child.inherits = Some(
        ["plain", "gone", "ninja", "other"].iter().map(|name| name.to_string()).collect(),
    );
    let mut presets = vec![child, plain, ninja, root, other];
    assert!(expand_cmake_preset_inheritance(&mut presets));
    assert_eq!(presets[0].generator.as_deref(), Some("Ninja"));
    assert_eq!(presets[0].binary_dir.as_deref(), Some("own"));
    assert_eq!(value_of(&presets[0], "A"), Some("plain"));
    assert_eq!(value_of(&presets[0], "B"), Some("ninja"));
    assert_eq!(value_of(&presets[0], "C"), Some("other"));
}
