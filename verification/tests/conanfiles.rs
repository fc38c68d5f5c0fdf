use repo_debug::conanfile::{
    build_all_dependency_graph, build_dependency_graph_and_topological_sort, check_graph_equal,
    find_dependence_in_conanfile, get_conanfile_content, parse_package_name_from_content,
    parse_package_name_from_repo, requirements, ConanfileError, DependencyQueryInput,
    DependencyTopologicalInfo,
};
use repo_debug::error::{Error, FileText};
use std::collections::HashMap;

struct MockDependencyQueryInput {
    conanfiles: HashMap<String, String>,
    all_dependencies: Vec<String>,
}

impl DependencyQueryInput for MockDependencyQueryInput {
    fn get_conanfile_content_by_conan_name(&self, conan_name: &str) -> Result<String, Error> {
        self.conanfiles
            .get(conan_name)
            .cloned()
            .ok_or_else(|| Error::new(&format!("Missing mock conanfile for {}", conan_name)))
    }

    fn get_all_dependencies(&self) -> Vec<String> {
        self.all_dependencies.clone()
    }
}

fn mock(recipes: &[(&str, &str)], names: &[&str]) -> MockDependencyQueryInput {
    MockDependencyQueryInput {
        conanfiles: recipes.iter().map(|(n, c)| (n.to_string(), c.to_string())).collect(),
        all_dependencies: names.iter().map(|n| n.to_string()).collect(),
    }
}

fn app_and_libs() -> MockDependencyQueryInput {
    mock(
        &[
            ("app", r#"requires = ["lib_a/1.0", "lib_b/1.0"]"#),
            ("lib_a", r#"requires = ["lib_b/1.0"]"#),
            ("lib_b", r#"requires = []"#),
        ],
        &["app", "lib_a", "lib_b"],
    )
}

#[test]
fn test_parse_package_name_with_double_quotes() {
    let content = r#"name = "my_package""#;
    let result = parse_package_name_from_content(content)
        .expect("Failed to parse package name from content with double quotes");
    assert_eq!(result, "my_package".to_string());
}

#[test]
fn test_parse_package_name_with_single_quotes() {
    let content = r#"name = 'my_package'"#;
    let result = parse_package_name_from_content(content)
        .expect("Failed to parse package name from content with single quotes");
    assert_eq!(result, "my_package".to_string());
}

#[test]
fn test_parse_package_name_without_spaces() {
    let content = r#"name="my_package""#;
    let result = parse_package_name_from_content(content)
        .expect("Failed to parse package name from content without spaces");
    assert_eq!(result, "my_package".to_string());
}

#[test]
fn test_parse_package_name_in_class() {
    let content = r#"
from conan import ConanFile

class MyPackageConan(ConanFile):
    name = "my_package"
    version = "1.0.0"
"#;
    let result = parse_package_name_from_content(content)
        .expect("Failed to parse package name from content in class");
    assert_eq!(result, "my_package".to_string());
}

#[test]
fn test_parse_package_name_with_extra_spaces() {
    let content = r#"  name   =   "my_package"  "#;
    let result = parse_package_name_from_content(content)
        .expect("Failed to parse package name from content with extra spaces");
    assert_eq!(result, "my_package".to_string());
}

#[test]
fn test_parse_package_name_not_found() {
    let content = r#"version = "1.0.0""#;
    let result = parse_package_name_from_content(content);
    assert!(result.is_err());
}

#[test]
fn test_build_all_dependency_graph_from_in_memory_contents() {
    let input = app_and_libs();

    let graph = build_all_dependency_graph(&input).expect("graph should be built");
    assert_eq!(graph.node_count(), 3);

    let info =
        build_dependency_graph_and_topological_sort("app", &input, &vec!["lib_b".to_string()])
            .ok()
            .expect("topological sort should succeed");
    assert_eq!(info.sorted_names, vec!["lib_b", "lib_a", "app"]);
    assert_eq!(info.need_debug_pkgs, vec!["lib_b", "app"]);
}

#[test]
fn test_need_debug_pkgs_filters_out_packages_not_in_graph() {
    let input = app_and_libs();

    let info = build_dependency_graph_and_topological_sort(
        "app",
        &input,
        &vec!["lib_b".to_string(), "orphan".to_string()],
    )
    .ok()
    .expect("topological sort should succeed");
    assert_eq!(info.need_debug_pkgs, vec!["lib_b", "app"]);
}

#[test]
fn test_build_all_dependency_graph_errors_when_content_missing() {
    let input = mock(&[("app", r#"requires = ["lib_a/1.0"]"#)], &["app", "lib_a"]);

    let err = build_all_dependency_graph(&input).expect_err("missing content should fail");
    match err {
        ConanfileError::Query(error) => {
            assert!(error.message.contains("Missing mock conanfile for lib_a"))
        }
        _ => panic!("expected the error of the source"),
    }
}

#[test]
fn names_come_from_the_first_line_that_declares_one() {
    let content = "surname = 'x'\nname = ''\n\n name=\"first\"\nname = 'second'\n";
    assert_eq!(parse_package_name_from_content(content).unwrap(), "first");
    assert!(matches!(
        parse_package_name_from_content("version = 1"),
        Err(ConanfileError::NoPackageName)
    ));
}

#[test]
fn recipes_are_read_as_far_as_there_are_any() {
    assert_eq!(get_conanfile_content(FileText::Text("a".to_string())).unwrap(), "a");
    assert!(matches!(get_conanfile_content(FileText::Missing), Err(ConanfileError::Missing)));
    assert!(matches!(get_conanfile_content(FileText::Unreadable), Err(ConanfileError::Unreadable)));
    assert_eq!(
        parse_package_name_from_repo(FileText::Text("name = 'p'".to_string())).unwrap(),
        "p"
    );
    assert!(matches!(
        parse_package_name_from_repo(FileText::Missing),
        Err(ConanfileError::Missing)
    ));
}

#[test]
fn requirements_are_found_in_quotes_before_a_slash() {
    let names = vec!["a.b".to_string(), "axb".to_string(), "c".to_string(), "d".to_string()];
    let found = find_dependence_in_conanfile("x('a.b/1', \"c/2\", 'dd/3', d/4)", &names);
    assert_eq!(found, vec!["a.b", "c"]);
}

#[test]
fn only_packages_between_the_executable_and_debug_are_needed() {
    let input = mock(
        &[
            ("app", "'mid/1' 'side/1'"),
            ("mid", "'low/1'"),
            ("low", ""),
            ("side", ""),
            ("other", "'low/1'"),
        ],
        &["low", "other", "side", "mid", "app"],
    );
    let info =
        build_dependency_graph_and_topological_sort("app", &input, &vec!["low".to_string()])
            .ok()
            .unwrap();
    assert_eq!(info.sorted_names, vec!["low", "mid", "app"]);
    assert_eq!(info.graph.node_count(), 3);
    assert_eq!(info.graph.edge_count(), 2);
    assert_eq!(requirements(&info.graph, "app").unwrap(), vec!["low", "mid"]);
    assert_eq!(requirements(&info.graph, "low").unwrap(), Vec::<String>::new());
    assert!(requirements(&info.graph, "side").is_none());
}

#[test]
fn cycles_have_no_order() {
    let input = mock(&[("app", "'lib/1'"), ("lib", "'app/1'")], &["app", "lib"]);
    let result =
        build_dependency_graph_and_topological_sort("app", &input, &vec!["lib".to_string()]);
    assert!(matches!(result, Err(ConanfileError::Cycle(_))));
}

#[test]
fn graphs_are_compared_by_their_packages_and_requirements() {
    let one = build_all_dependency_graph(&app_and_libs()).unwrap();
    let same = build_all_dependency_graph(&mock(
        &[
            ("lib_b", ""),
            ("app", r#"'lib_b/1.0' 'lib_a/1.0'"#),
            ("lib_a", r#"'lib_b/1.0'"#),
        ],
        &["lib_b", "app", "lib_a"],
    ))
    .unwrap();
    let other = build_all_dependency_graph(&mock(
        &[("lib_b", ""), ("app", r#"'lib_a/1.0'"#), ("lib_a", r#"'lib_b/1.0'"#)],
        &["lib_b", "app", "lib_a"],
    ))
    .unwrap();
    assert!(check_graph_equal(&one, &same));
    assert!(!check_graph_equal(&one, &other));
    let nothing = DependencyTopologicalInfo::default();
    assert_eq!(nothing.graph.node_count(), 0);
    assert!(nothing.sorted_names.is_empty());
    assert!(!check_graph_equal(&one, &nothing.graph));
}
