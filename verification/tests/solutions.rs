use repo_debug::paths::PathStyle;
use repo_debug::sln::{
    build_sln_content, extract_first_guid_from_line, extract_guid_from_line, parse_sln, SlnData,
    SlnError,
};
use repo_debug::sln_merge_kit::{
    detect_indent, get_folder_path, merge_data, merge_sln, projects_to_hash, SourceSolution,
};

const FOLDER: &str = "{2150E333-8FDC-42A3-9474-1A3956D46DE8}";
const CPP: &str = "{8BC9CEB8-8B4A-11D0-8D11-00A0C91BC942}";

fn project(kind: &str, name: &str, path: &str, guid: &str) -> String {
    format!("Project(\"{}\") = \"{}\", \"{}\", \"{}\"\nEndProject\n", kind, name, path, guid)
}

fn solution(projects: &[String], configurations: &[&str], nesting: &[&str]) -> String {
    let lines = |list: &[&str]| list.iter().map(|l| format!("\t\t{}\n", l)).collect::<String>();
    format!(
        "Microsoft Visual Studio Solution File, Format Version 12.00\n# Visual Studio 17\n{}Global\n\tGlobalSection(ProjectConfigurationPlatforms) = postSolution\n{}\tEndGlobalSection\n\tGlobalSection(NestedProjects) = preSolution\n{}\tEndGlobalSection\nEndGlobal\n",
        projects.concat(),
        lines(configurations),
        lines(nesting)
    )
}

fn target_text() -> String {
    solution(
        &[
            project(FOLDER, "CMakePredefinedTargets", "CMakePredefinedTargets", "{F0}"),
            project(CPP, "ALL_BUILD", "ALL_BUILD.vcxproj", "{A0}"),
            project(CPP, "app", "app.vcxproj", "{A1}"),
        ],
        &["{A0}.Debug|x64.ActiveCfg = Debug|x64", "{A1}.Debug|x64.ActiveCfg = Debug|x64"],
        &["{A0} = {F0}"],
    )
}

fn source_text() -> String {
    solution(
        &[
            project(FOLDER, "CMakePredefinedTargets", "CMakePredefinedTargets", "{F1}"),
            project(CPP, "ALL_BUILD", "ALL_BUILD.vcxproj", "{B0}"),
            project(CPP, "core", "core.vcxproj", "{B1}"),
            project(CPP, "zero", "ZERO_CHECK.vcxproj", "{B2}"),
        ],
        &[
            "{B0}.Debug|x64.ActiveCfg = Debug|x64",
            "{B1}.Debug|x64.ActiveCfg = Debug|x64",
            "{B2}.Debug|x64.ActiveCfg = Debug|x64",
        ],
        &["{B0} = {F1}", "{B2} = {F1}"],
    )
}

fn parsed(text: &str) -> SlnData {
    let mut data = parse_sln(text).unwrap_or_else(|_| panic!("the solution is well formed"));
    let files = data.projects.iter().map(|p| p.project_path.ends_with(".vcxproj")).collect();
    data.mark_files(&files);
    data
}

fn source(path: &str, text: &str) -> SourceSolution {
    SourceSolution { path: path.to_string(), parsed: Ok(parsed(text)) }
}

#[test]
fn solutions_are_read_and_written_back() {
    let text = target_text();
    let data = parsed(&text);
    assert_eq!(data.projects.len(), 3);
    assert_eq!(data.projects[2].name, "app");
    assert_eq!(data.projects[2].project_path, "app.vcxproj");
    assert_eq!(data.projects[2].guid, "{A1}");
    assert_eq!(data.projects[2].first_guid, CPP);
    assert!(!data.projects[0].is_file && data.projects[1].is_file);
    assert_eq!(data.global_sections[1].name, "NestedProjects");
    assert_eq!(data.newline, "\n");
    assert_eq!(build_sln_content(&data), text);
    let windows = text.replace('\n', "\r\n");
    assert_eq!(build_sln_content(&parsed(&windows)), windows);
}

#[test]
fn malformed_solutions_are_refused() {
    let fails = |text: &str| parse_sln(text).err().unwrap();
    assert!(matches!(fails("x\n"), SlnError::MissingGlobal));
    assert!(matches!(fails("Project(\nEndProject\n"), SlnError::NoFirstGuid(_)));
    assert!(matches!(fails("Project(\"{A}\")\nEndProject\n"), SlnError::NoName(_)));
    assert!(matches!(fails("Project(\"{A}\") = \"n\"\nEndProject\n"), SlnError::NoPath(_)));
    assert!(matches!(
        fails("Project(\"{A}\") = \"n\", \"p\", \"{B}\"\n"),
        SlnError::MissingEndProject(name) if name == "n"
    ));
    assert!(matches!(
        fails("Global\nGlobalSection(S) = pre\n"),
        SlnError::MissingEndGlobalSection(name) if name == "S"
    ));
    assert_eq!(extract_guid_from_line("a {X} b {Y} c"), Some("{Y}".to_string()));
    assert_eq!(extract_first_guid_from_line("a {X} b {Y} c"), Some("{X}".to_string()));
    assert_eq!(extract_first_guid_from_line("a } b { c"), None);
}

#[test]
fn folders_have_paths() {
    let style = PathStyle::native();
    let text = solution(
        &[
            project(FOLDER, "outer", "outer", "{O}"),
            project(FOLDER, "inner", "inner", "{I}"),
            project(CPP, "p", "p.vcxproj", "{P}"),
        ],
        &[],
        &["{I} = {O}", "{P} = {I}"],
    );
    let data = parsed(&text);
    assert_eq!(get_folder_path(&style, &data, "{P}"), Some("outer/inner".to_string()));
    assert_eq!(get_folder_path(&style, &data, "{O}"), Some("outer".to_string()));
    let cyclic = parsed(&solution(&[], &[], &["{A} = {B}", "{B} = {A}"]));
    assert_eq!(get_folder_path(&style, &cyclic, "{A}"), None);
}

#[test]
fn projects_of_sources_come_under_a_folder() {
    let style = PathStyle::native();
    let merged = merge_data(
        &style,
        "/w/app/build/app.sln",
        parsed(&target_text()),
        &vec![source("/w/core/build/core.sln", &source_text())],
        "unused",
    )
    .ok()
    .unwrap();
    let paths: Vec<&str> = merged.projects.iter().map(|p| p.project_path.as_str()).collect();
    assert_eq!(
        paths,
        vec![
            "CMakePredefinedTargets",
            "ALL_BUILD.vcxproj",
            "app.vcxproj",
            "core",
            "CMakePredefinedTargets",
            "../../core/build/core.vcxproj",
            "../../core/build/ZERO_CHECK.vcxproj"
        ]
    );
    let folder = &merged.projects[3].guid;
    assert_eq!(folder, "{9C9065F3-4897-55A1-B515-23C370BC4255}");
    assert_eq!(merged.projects[3].first_guid, FOLDER);
    assert_eq!(
        merged.global_sections[0].lines,
        vec![
            "\t\t{A0}.Debug|x64.ActiveCfg = Debug|x64",
            "\t\t{A1}.Debug|x64.ActiveCfg = Debug|x64",
            "\t\t{B1}.Debug|x64.ActiveCfg = Debug|x64",
            "\t\t{B2}.Debug|x64.ActiveCfg = Debug|x64"
        ]
    );
    let nesting = &merged.global_sections[1].lines;
    assert_eq!(nesting[0], "\t\t{A0} = {F0}");
    assert_eq!(nesting[1], "\t\t{B2} = {F1}");
    assert!(nesting.contains(&format!("\t\t{{B1}} = {}", folder)));
    assert!(nesting.contains(&format!("\t\t{{F1}} = {}", folder)));
    assert_eq!(nesting.len(), 4);
}

#[test]
fn merging_again_adds_nothing_but_the_text_stays() {
    let style = PathStyle::native();
    let present = target_text();
    let sources = || vec![source("/w/core/build/core.sln", &source_text())];
    let merged =
        merge_sln(&style, "/w/app/build/app.sln", parsed(&present), &present, &sources())
            .ok()
            .unwrap()
            .unwrap();
    assert!(merged.contains("../../core/build/core.vcxproj"));
    let again = merge_sln(&style, "/w/app/build/app.sln", parsed(&merged), &merged, &sources());
    assert!(again.ok().unwrap().is_none());
    let nothing = vec![SourceSolution {
        path: "/w/gone/gone.sln".to_string(),
        parsed: Err(SlnError::Missing),
    }];
    let kept = merge_sln(&style, "/w/app/build/app.sln", parsed(&present), &present, &nothing);
    assert!(kept.ok().unwrap().is_none());
}

#[test]
fn the_file_of_a_second_merging_is_that_of_the_first() {
    let style = PathStyle::native();
    let present = target_text();
    let deep = solution(
        &[
            project(FOLDER, "outer", "outer", "{C1}"),
            project(FOLDER, "inner", "inner", "{C2}"),
            project(CPP, "ALL_BUILD", "ALL_BUILD.vcxproj", "{C3}"),
            project(CPP, "net", "net.vcxproj", "{C4}"),
        ],
        &["{C4}.Debug|x64.ActiveCfg = Debug|x64"],
        &["{C2} = {C1}", "{C4} = {C2}"],
    );
    let sources = || {
        vec![
            source("/w/core/build/core.sln", &source_text()),
            source("/w/net/build/net.sln", &deep),
        ]
    };
    let path = "/w/app/build/app.sln";
    let merged = merge_sln(&style, path, parsed(&present), &present, &sources()).ok().unwrap();
    let merged = merged.unwrap();
    let data = parsed(&merged);
    let folder = data.projects.iter().find(|p| p.name == "inner").unwrap();
    assert_eq!(get_folder_path(&style, &data, &folder.guid), Some("net/outer/inner".to_string()));
    assert_eq!(build_sln_content(&data), merged);
    let again = merge_sln(&style, path, data, &merged, &sources()).ok().unwrap();
    assert!(again.is_none());
}

#[test]
fn a_drawn_folder_type_is_an_identifier() {
    let style = PathStyle::native();
    let present = solution(&[project(CPP, "app", "app.vcxproj", "{A1}")], &[], &[]);
    let sources = vec![source("/w/core/core.sln", &source_text())];
    let merged = merge_sln(&style, "/w/app/app.sln", parsed(&present), &present, &sources)
        .ok()
        .unwrap()
        .unwrap();
    let line = merged.lines().find(|l| l.contains("\"core\", \"core\"")).unwrap();
    let drawn = line.trim_start_matches("Project(\"").split('"').next().unwrap();
    assert_eq!(drawn.len(), 36);
    for (i, c) in drawn.chars().enumerate() {
        if [8, 13, 18, 23].contains(&i) {
            assert_eq!(c, '-');
        } else {
            assert!(c.is_ascii_digit() || ('a'..='f').contains(&c));
        }
    }
}

#[test]
fn solutions_without_their_sections_are_not_merged() {
    let style = PathStyle::native();
    let bare = "Global\nEndGlobal\n";
    let sources = vec![source("/w/core/core.sln", &source_text())];
    let result = merge_data(&style, "/w/app/app.sln", parsed(bare), &sources, "x");
    assert!(matches!(result.err().unwrap(), SlnError::NoConfigurationSection));
    let half = "Global\nGlobalSection(ProjectConfigurationPlatforms) = x\nEndGlobalSection\nEndGlobal\n";
    let result = merge_data(&style, "/w/app/app.sln", parsed(half), &sources, "x");
    assert!(matches!(result.err().unwrap(), SlnError::NoNestingSection));
    let unreadable = vec![SourceSolution {
        path: "/w/core/core.sln".to_string(),
        parsed: Err(SlnError::Unreadable),
    }];
    let result = merge_data(&style, "/w/app/app.sln", parsed(&target_text()), &unreadable, "x");
    assert!(matches!(result.err().unwrap(), SlnError::Unreadable));
    let apart = vec![source("core/core.sln", &source_text())];
    let result = merge_data(&style, "../app/app.sln", parsed(&target_text()), &apart, "x");
    assert!(matches!(result.err().unwrap(), SlnError::NoRelativePath(_)));
    let cyclic = solution(&[project(FOLDER, "a", "a", "{A}")], &[], &["{A} = {B}", "{B} = {A}"]);
    let result = merge_data(&style, "/w/app/app.sln", parsed(&cyclic), &sources, "x");
    assert!(matches!(result.err().unwrap(), SlnError::CyclicFolders));
}

#[test]
fn new_folders_take_the_fresh_type_where_there_is_none() {
    let style = PathStyle::native();
    let target = solution(&[project(CPP, "app", "app.vcxproj", "{A1}")], &[], &[]);
    let sources = vec![source("/w/core/core.sln", &source_text())];
    let merged =
        merge_data(&style, "/w/app/app.sln", parsed(&target), &sources, "fresh").ok().unwrap();
    assert_eq!(merged.projects[1].first_guid, "fresh");
    assert_eq!(
        merged.global_sections[1].lines.last().unwrap().len() - merged.global_sections[1].lines.last().unwrap().trim_start().len(),
        8
    );
    assert_eq!(detect_indent(&vec!["\t x".to_string()]), "\t ");
    assert_eq!(detect_indent(&Vec::new()), "        ");
}

#[test]
fn hashes_rest_on_the_own_project_files() {
    let style = PathStyle::native();
    let text = solution(
        &[
            project(CPP, "a", "a.vcxproj", "{A}"),
            project(CPP, "b", "../x/b.vcxproj", "{B}"),
            project(CPP, "c", "sub/c.vcxproj", "{C}"),
            project(FOLDER, "d", "d", "{D}"),
        ],
        &[],
        &[],
    );
    assert_eq!(projects_to_hash(&style, &parsed(&text)), vec!["a.vcxproj", "sub/c.vcxproj"]);
}
