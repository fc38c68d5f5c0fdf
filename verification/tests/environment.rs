use repo_debug::error::Error;
use repo_debug::paths::PathStyle;
use repo_debug::vs_dev_env::{
    copy_environment, decode_utf16_le, detect_host_arch, get_env_ignore_ascii_case,
    get_vs_install_path, get_vswhere_path, insert_env_ignore_ascii_case, overlay, parse_env_dump,
    prioritize_visual_studio_path_entries, put_search_path, vs_dev_cmd_path, vs_dev_command_line,
    Environment, HostArchError, Utf16Error, VsDevEnv,
};
use std::cell::Cell;

fn environment(entries: &[(&str, &str)]) -> Environment {
    let mut env = Environment::new();
    for (name, value) in entries {
        env.insert(name.to_string(), value.to_string());
    }
    env
}

#[test]
fn detects_supported_host_architectures() {
    for (native_arch, expected) in
        [("AMD64", "x64"), ("x64", "x64"), ("x86", "x86"), ("ARM64", "x64")]
    {
        let env = environment(&[("PROCESSOR_ARCHITECTURE", native_arch)]);
        assert_eq!(detect_host_arch(&env).unwrap(), expected);
    }
}

#[test]
fn prefers_wow64_native_architecture() {
    let env = environment(&[
        ("PROCESSOR_ARCHITECTURE", "x86"),
        ("PROCESSOR_ARCHITEW6432", "AMD64"),
    ]);
    assert_eq!(detect_host_arch(&env).unwrap(), "x64");
}

#[test]
fn rejects_missing_or_unsupported_host_architecture() {
    assert!(detect_host_arch(&Environment::new()).is_err());
    let env = environment(&[("PROCESSOR_ARCHITECTURE", "mips")]);
    assert!(detect_host_arch(&env).is_err());
}

#[test]
fn parses_environment_dump_and_preserves_equals_in_values() {
    let base_env = environment(&[("KEEP", "base"), ("OVERRIDE", "old")]);
    let parsed = parse_env_dump(
        "VsDevCmd output\r\nOVERRIDE=new\r\nVALUE=a=b=c\r\nINVALID\r\n",
        &base_env,
    );
    assert_eq!(get_env_ignore_ascii_case(&parsed, "KEEP").unwrap(), "base");
    assert_eq!(get_env_ignore_ascii_case(&parsed, "OVERRIDE").unwrap(), "new");
    assert_eq!(get_env_ignore_ascii_case(&parsed, "VALUE").unwrap(), "a=b=c");
}

#[test]
fn prioritizes_and_deduplicates_visual_studio_path_entries() {
    let input = vec![
        r"C:\Tools".to_string(),
        r"C:\Microsoft Visual Studio\VC\bin".to_string(),
        r"c:\tools".to_string(),
        r"C:\Other".to_string(),
    ];
    let entries = prioritize_visual_studio_path_entries(&input);
    assert_eq!(
        entries,
        vec![r"C:\Microsoft Visual Studio\VC\bin", r"C:\Tools", r"C:\Other"]
    );
}

#[test]
fn applies_cached_environment_only_to_ninja_commands() {
    let mut vs_dev_env = VsDevEnv::with_resolved_env(environment(&[("VS_TEST_ENV", "ready")]));
    let mut ninja_command = Environment::new();
    vs_dev_env
        .apply_to_ninja_command("Ninja Multi-Config", &mut ninja_command, || {
            Err(Error::new("the environment is known"))
        })
        .unwrap();
    assert_eq!(ninja_command.get("VS_TEST_ENV"), Some(&"ready".to_string()));

    let mut visual_studio_command = Environment::new();
    vs_dev_env
        .apply_to_ninja_command("Visual Studio 17 2022", &mut visual_studio_command, || {
            Err(Error::new("the environment is known"))
        })
        .unwrap();
    assert_eq!(visual_studio_command.len(), 0);
}

#[test]
fn resolves_environment_once_and_does_not_cache_failures() {
    let mut vs_dev_env = VsDevEnv::new();
    let resolve_count = Cell::new(0);
    {
        let resolved_env = vs_dev_env
            .resolved_env_with(|| {
                resolve_count.set(resolve_count.get() + 1);
                Ok(environment(&[("READY", "1")]))
            })
            .ok()
            .unwrap();
        assert_eq!(get_env_ignore_ascii_case(resolved_env, "READY").unwrap(), "1");
    }
    let _resolved_env = vs_dev_env
        .resolved_env_with(|| {
            resolve_count.set(resolve_count.get() + 1);
            Ok(Environment::new())
        })
        .ok()
        .unwrap();
    assert_eq!(resolve_count.get(), 1);

    let mut failing_env = VsDevEnv::new();
    let failure =
        failing_env.resolved_env_with(|| Err(Error::new("expected resolver failure"))).err().unwrap();
    assert_eq!(failure.message, "Failed to generate the Visual Studio developer environment");
    assert_eq!(failure.causes, vec!["expected resolver failure"]);
    let mut command = Environment::new();
    let failure = failing_env
        .apply_to_ninja_command("Ninja", &mut command, || Err(Error::new("no tools")))
        .unwrap_err();
    assert_eq!(failure.message, "Failed to resolve the MSVC environment for Ninja");
    assert_eq!(
        failure.causes,
        vec!["Failed to generate the Visual Studio developer environment", "no tools"]
    );
    assert_eq!(command.len(), 0);
    let recovered_env = failing_env
        .resolved_env_with(|| Ok(environment(&[("RECOVERED", "1")])))
        .ok()
        .unwrap();
    assert_eq!(get_env_ignore_ascii_case(recovered_env, "RECOVERED").unwrap(), "1");
}

#[test]
fn architecture_errors_tell_what_was_found() {
    assert!(matches!(detect_host_arch(&Environment::new()), Err(HostArchError::Unknown)));
    let env = environment(&[("processor_architecture", "mips")]);
    assert!(matches!(
        detect_host_arch(&env),
        Err(HostArchError::Unsupported(arch)) if arch == "mips"
    ));
}

#[test]
fn names_of_variables_ignore_case() {
    let mut env = environment(&[("Path", "a")]);
    assert_eq!(get_env_ignore_ascii_case(&env, "PATH").unwrap(), "a");
    insert_env_ignore_ascii_case(&mut env, "PATH".to_string(), "b".to_string());
    assert_eq!(env.len(), 1);
    assert_eq!(env.get("PATH"), Some(&"b".to_string()));
    assert!(get_env_ignore_ascii_case(&env, "OTHER").is_none());
}

#[test]
fn environments_are_copied_and_laid_over_one_another() {
    let base = environment(&[("A", "1"), ("B", "2")]);
    let mut over = copy_environment(&base);
    overlay(&mut over, &environment(&[("B", "3"), ("C", "4")]));
    assert_eq!(over.get("A"), Some(&"1".to_string()));
    assert_eq!(over.get("B"), Some(&"3".to_string()));
    assert_eq!(over.get("C"), Some(&"4".to_string()));
    assert_eq!(base.get("B"), Some(&"2".to_string()));
}

#[test]
fn utf16_output_is_decoded() {
    assert_eq!(decode_utf16_le(&vec![0xff, 0xfe, b'h', 0, 0x2d, 0x4e]).unwrap(), "h\u{4e2d}");
    assert!(matches!(decode_utf16_le(&vec![b'h']), Err(Utf16Error::OddLength(1))));
    assert!(matches!(decode_utf16_le(&vec![0x00, 0xd8]), Err(Utf16Error::Invalid)));
}

#[test]
fn visual_studio_is_looked_for_below_the_programs() {
    let style = PathStyle::native();
    let env = environment(&[("ProgramFiles", "/pf"), ("ProgramFiles(x86)", "/pf86")]);
    assert_eq!(
        get_vswhere_path(&style, &env),
        vec![
            "/pf86/Microsoft Visual Studio/Installer/vswhere.exe",
            "/pf/Microsoft Visual Studio/Installer/vswhere.exe"
        ]
    );
    assert_eq!(get_vs_install_path("  /vs\r\n"), Some("/vs".to_string()));
    assert_eq!(get_vs_install_path(" \n"), None);
    assert_eq!(vs_dev_cmd_path(&style, "/vs"), "/vs/Common7/Tools/VsDevCmd.bat");
    assert_eq!(
        vs_dev_command_line("/x.bat", "x64"),
        r#"call "/x.bat" -arch=x64 -host_arch=x64 && set"#
    );
}

#[test]
fn search_paths_are_replaced_where_there_are_any() {
    let mut env = environment(&[("Path", "a;b"), ("OTHER", "x")]);
    put_search_path(&mut env, None);
    assert_eq!(env.key_list(), vec!["OTHER", "PATH"]);
    assert_eq!(env.get("PATH").unwrap(), "a;b");
    put_search_path(&mut env, Some("b;a".to_string()));
    assert_eq!(env.get("PATH").unwrap(), "b;a");
    let mut bare = environment(&[("OTHER", "x")]);
    put_search_path(&mut bare, Some("b;a".to_string()));
    assert_eq!(bare.key_list(), vec!["OTHER"]);
}
