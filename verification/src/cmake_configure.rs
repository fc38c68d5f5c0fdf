//! Configuring a repository with CMake: the preset that is made for it, whether CMake has to
//! run, and what it leaves behind.

use crate::cmake_presets::{self, CMakePresets, CacheValue, CacheValueView, CacheVariables, ConfigurePreset, PresetView, VariablesView};
use crate::hash::{self, HashType};
use crate::maps::{self, TextMap};
use crate::paths::{self, PathContext};
use crate::task::TaskMeta;
use crate::text;
use vstd::prelude::*;

verus! {

/// Why no preset can be made for a repository.
#[derive(Debug)]
pub enum PresetError {
    /// Presets inherit from one another.
    CyclicInheritance,
    /// No preset suits the configuration and the generator.
    NoSuitablePreset { build_config: String, keyword: String },
    /// The preset to build on has no generator.
    NoGenerator,
    /// The preset to build on has no binary directory.
    NoBinaryDir,
    /// The preset to build on has no install prefix that is a string.
    NoInstallPrefix,
    /// The field reads the environment.
    EnvironmentMacro { field: String, value: String },
    /// The field holds a macro that is not known here.
    UnresolvedMacro { field: String, value: String },
    /// The directory cannot be told from the root of the repository.
    NotRelative { field: String, value: String, resolved: String, repo: String },
}

/// The content of a [`PresetError`].
pub enum PresetFault {
    CyclicInheritance,
    NoSuitablePreset { build_config: Seq<char>, keyword: Seq<char> },
    NoGenerator,
    NoBinaryDir,
    NoInstallPrefix,
    EnvironmentMacro { field: Seq<char>, value: Seq<char> },
    UnresolvedMacro { field: Seq<char>, value: Seq<char> },
    NotRelative { field: Seq<char>, value: Seq<char>, resolved: Seq<char>, repo: Seq<char> },
}

impl View for PresetError {
    type V = PresetFault;

    open spec fn view(&self) -> PresetFault {
        match self {
            PresetError::CyclicInheritance => PresetFault::CyclicInheritance,
            PresetError::NoSuitablePreset { build_config, keyword } => {
                PresetFault::NoSuitablePreset { build_config: build_config@, keyword: keyword@ }
            },
            PresetError::NoGenerator => PresetFault::NoGenerator,
            PresetError::NoBinaryDir => PresetFault::NoBinaryDir,
            PresetError::NoInstallPrefix => PresetFault::NoInstallPrefix,
            PresetError::EnvironmentMacro { field, value } => {
                PresetFault::EnvironmentMacro { field: field@, value: value@ }
            },
            PresetError::UnresolvedMacro { field, value } => {
                PresetFault::UnresolvedMacro { field: field@, value: value@ }
            },
            PresetError::NotRelative { field, value, resolved, repo } => PresetFault::NotRelative {
                field: field@,
                value: value@,
                resolved: resolved@,
                repo: repo@,
            },
        }
    }
}

impl PresetFault {
    /// The description of the fault.
    pub open spec fn message(self) -> Seq<char> {
        match self {
            PresetFault::CyclicInheritance => "CMake presets inherit from one another"@,
            PresetFault::NoSuitablePreset { build_config, keyword } => {
                "No suitable CMake preset found for config '"@ + build_config
                    + "'. Required: generator containing '"@ + keyword
                    + "', binaryDir, CMAKE_INSTALL_PREFIX, and either CMAKE_CONFIGURATION_TYPES containing '"@
                    + build_config + "' or CMAKE_BUILD_TYPE equal to '"@ + build_config + "'"@
            },
            PresetFault::NoGenerator => "Base preset generator is missing"@,
            PresetFault::NoBinaryDir => "Base preset binaryDir is missing"@,
            PresetFault::NoInstallPrefix => "Base preset CMAKE_INSTALL_PREFIX must be a string"@,
            PresetFault::EnvironmentMacro { field, value } => {
                "Environment variable macros are not supported in preset field '"@ + field
                    + "': '"@ + value + "'"@
            },
            PresetFault::UnresolvedMacro { field, value } => {
                "Unsupported unresolved macro in preset field '"@ + field + "': '"@ + value
                    + "'"@
            },
            PresetFault::NotRelative { field, value, resolved, repo } => {
                "Failed to make preset field '"@ + field
                    + "' relative to repo root: original='"@ + value + "', resolved='"@ + resolved
                    + "', repo='"@ + repo + "'"@
            },
        }
    }
}

impl PresetError {
    /// The description of the error.
    pub fn message(&self) -> (r: String)
        ensures
            r@ == self@.message(),
    {
        match self {
            PresetError::CyclicInheritance => {
                "CMake presets inherit from one another".to_owned()
            },
            PresetError::NoSuitablePreset { build_config, keyword } => {
                let mut s = "No suitable CMake preset found for config '".to_owned();
                s.append(build_config.as_str());
                s.append("'. Required: generator containing '");
                s.append(keyword.as_str());
                s.append(
                    "', binaryDir, CMAKE_INSTALL_PREFIX, and either CMAKE_CONFIGURATION_TYPES containing '",
                );
                s.append(build_config.as_str());
                s.append("' or CMAKE_BUILD_TYPE equal to '");
                s.append(build_config.as_str());
                s.append("'");
                s
            },
            PresetError::NoGenerator => "Base preset generator is missing".to_owned(),
            PresetError::NoBinaryDir => "Base preset binaryDir is missing".to_owned(),
            PresetError::NoInstallPrefix => {
                "Base preset CMAKE_INSTALL_PREFIX must be a string".to_owned()
            },
            PresetError::EnvironmentMacro { field, value } => {
                let mut s =
                    "Environment variable macros are not supported in preset field '".to_owned();
                s.append(field.as_str());
                s.append("': '");
                s.append(value.as_str());
                s.append("'");
                s
            },
            PresetError::UnresolvedMacro { field, value } => {
                let mut s = "Unsupported unresolved macro in preset field '".to_owned();
                s.append(field.as_str());
                s.append("': '");
                s.append(value.as_str());
                s.append("'");
                s
            },
            PresetError::NotRelative { field, value, resolved, repo } => {
                let mut s = "Failed to make preset field '".to_owned();
                s.append(field.as_str());
                s.append("' relative to repo root: original='");
                s.append(value.as_str());
                s.append("', resolved='");
                s.append(resolved.as_str());
                s.append("', repo='");
                s.append(repo.as_str());
                s.append("'");
                s
            },
        }
    }
}

/// The project name that a line of the CMake cache gives.
pub open spec fn project_name_in(line: Seq<char>) -> Option<Seq<char>> {
    match text::after_prefix(text::trim_of(line), "CMAKE_PROJECT_NAME:"@) {
        None => None,
        Some(rest) => match text::first_index(rest, '=') {
            None => None,
            Some(i) => {
                let value = text::strip_trailing(
                    text::strip_leading(text::trim_of(rest.skip(i + 1)), '"'),
                    '"',
                );
                if value.len() == 0 {
                    None
                } else {
                    Some(value)
                }
            },
        },
    }
}

/// The project name that the first such line gives.
pub open spec fn first_project_name(lines: Seq<Seq<char>>) -> Option<Seq<char>>
    decreases lines.len(),
{
    if lines.len() == 0 {
        None
    } else {
        match first_project_name(lines.drop_last()) {
            Some(name) => Some(name),
            None => project_name_in(lines.last()),
        }
    }
}

/// The project name that a line of the CMake cache gives.
fn read_project_name(line: &str) -> (r: Option<String>)
    ensures
        text::opt_text(r) == project_name_in(line@),
{
    let line = text::trim(line);
    match text::strip_prefix(line.as_str(), "CMAKE_PROJECT_NAME:") {
        None => None,
        Some(rest) => match text::split_once(rest.as_str(), '=') {
            None => None,
            Some((_, value)) => {
                let value = text::trim_char(text::trim(value.as_str()).as_str(), '"');
                if text::chars_of(value.as_str()).len() == 0 {
                    None
                } else {
                    Some(value)
                }
            },
        },
    }
}

proof fn lemma_first_project_name_take(lines: Seq<Seq<char>>, n: int)
    requires
        0 <= n <= lines.len(),
        first_project_name(lines.take(n)) is Some,
    ensures
        first_project_name(lines) == first_project_name(lines.take(n)),
    decreases lines.len() - n,
{
    if n == lines.len() {
        assert(lines.take(n) =~= lines);
    } else {
        assert(lines.take(n + 1).drop_last() =~= lines.take(n));
        lemma_first_project_name_take(lines, n + 1);
    }
}

/// The project name that the text of the CMake cache gives.
pub fn parse_cmake_project_name_from_cache(content: &str) -> (r: Option<String>)
    ensures
        text::opt_text(r) == first_project_name(text::lines_of(content@)),
{
    let lines = text::lines(content);
    let ghost all = text::texts(lines@);
    for i in 0..lines.len()
        invariant
            all == text::texts(lines@),
            all == text::lines_of(content@),
            first_project_name(all.take(i as int)) is None,
    {
        assert(all.take(i + 1).drop_last() =~= all.take(i as int));
        if let Some(name) = read_project_name(lines[i].as_str()) {
            proof {
                lemma_first_project_name_take(all, i + 1);
            }
            return Some(name);
        }
    }
    assert(all.take(all.len() as int) =~= all);
    None
}

/// A path as CMake writes it: absolute, with forward slashes.
pub open spec fn cmake_path(context: PathContext, path: Seq<char>) -> Seq<char> {
    text::replace_of(context.absolute(path), "\\"@, "/"@)
}

/// A path as CMake writes it.
pub fn convert_to_cmake_path(context: &PathContext, path: &str) -> (r: String)
    ensures
        r@ == cmake_path(*context, path@),
{
    text::replace(context.absolutize(path).as_str(), "\\", "/")
}

/// A character that the name of a macro may hold.
pub open spec fn is_macro_char(c: char) -> bool {
    ('a' <= c && c <= 'z') || ('A' <= c && c <= 'Z') || ('0' <= c && c <= '9') || c == '_'
}

/// A macro begins at position `i`: a dollar sign, perhaps a name, and an opening brace.
pub open spec fn macro_at(s: Seq<char>, i: int) -> bool {
    &&& 0 <= i < s.len()
    &&& s[i] == '$'
    &&& text::first_index(s.skip(i + 1), '{') matches Some(open) && forall|k: int|
        i < k < i + 1 + open ==> is_macro_char(#[trigger] s[k])
}

/// A macro stands in the text.
pub open spec fn has_macro(s: Seq<char>) -> bool {
    exists|i: int| macro_at(s, i)
}

/// Whether a macro stands in the text.
pub fn contains_preset_macro(value: &str) -> (r: bool)
    ensures
        r == has_macro(value@),
{
    let chars = text::chars_of(value);
    for i in 0..chars.len()
        invariant
            chars@ == value@,
            forall|j: int| 0 <= j < i ==> !macro_at(value@, j),
    {
        if chars[i] == '$' {
            if let Some(open) = text::find_char(&chars, '{', i + 1) {
                let mut all = true;
                for k in i + 1..open
                    invariant
                        i < open < chars@.len(),
                        all == (forall|m: int| i < m < k ==> is_macro_char(#[trigger] chars@[m])),
                {
                    let c = chars[k];
                    if !(('a' <= c && c <= 'z') || ('A' <= c && c <= 'Z') || ('0' <= c && c <= '9')
                        || c == '_') {
                        all = false;
                        assert(!is_macro_char(chars@[k as int]));
                    }
                }
                if all {
                    assert(macro_at(value@, i as int));
                    return true;
                }
                assert(!macro_at(value@, i as int));
            }
        }
    }
    false
}

/// The directory that a field of a preset names, from the root of the repository.
pub open spec fn repo_relative(
    context: PathContext,
    source_dir: Seq<char>,
    value: Seq<char>,
    field: Seq<char>,
) -> Result<Seq<char>, PresetFault> {
    let style = context.style_view();
    let root = context.absolute(source_dir);
    let expanded = text::replace_of(value, "${sourceDir}"@, root);
    let full = context.absolute(
        if paths::absolute_path(style, expanded) {
            expanded
        } else {
            paths::joined_path(style, root, expanded)
        },
    );
    if text::contains_text(value, "$env{"@) || text::contains_text(value, "$penv{"@) {
        Err(PresetFault::EnvironmentMacro { field, value })
    } else if has_macro(expanded) {
        Err(PresetFault::UnresolvedMacro { field, value })
    } else {
        match paths::relative_path(style, full, root) {
            Some(relative) => if paths::absolute_path(style, relative) {
                Err(PresetFault::NotRelative { field, value, resolved: full, repo: root })
            } else {
                Ok(relative)
            },
            None => Err(PresetFault::NotRelative { field, value, resolved: full, repo: root }),
        }
    }
}

/// The directory that a field of a preset names, from the root of the repository.
pub fn resolve_repo_relative_preset_path(
    context: &PathContext,
    source_dir: &str,
    preset_path: &str,
    field_name: &str,
) -> (r: Result<String, PresetError>)
    ensures
        repo_relative(*context, source_dir@, preset_path@, field_name@) == (match r {
            Ok(path) => Ok(path@),
            Err(e) => Err(e@),
        }),
{
    let style = context.style();
    let root = context.absolutize(source_dir);
    if text::contains(preset_path, "$env{") || text::contains(preset_path, "$penv{") {
        return Err(
            PresetError::EnvironmentMacro {
                field: field_name.to_owned(),
                value: preset_path.to_owned(),
            },
        );
    }
    let expanded = text::replace(preset_path, "${sourceDir}", root.as_str());
    if contains_preset_macro(expanded.as_str()) {
        return Err(
            PresetError::UnresolvedMacro {
                field: field_name.to_owned(),
                value: preset_path.to_owned(),
            },
        );
    }
    let full = if paths::is_absolute(&style, expanded.as_str()) {
        context.absolutize(expanded.as_str())
    } else {
        context.absolutize(paths::join(&style, root.as_str(), expanded.as_str()).as_str())
    };
    if let Some(relative) = paths::diff(&style, full.as_str(), root.as_str()) {
        if !paths::is_absolute(&style, relative.as_str()) {
            return Ok(relative);
        }
    }
    Err(
        PresetError::NotRelative {
            field: field_name.to_owned(),
            value: preset_path.to_owned(),
            resolved: full,
            repo: root,
        },
    )
}

/// The value of a variable, where it is a string.
pub open spec fn text_variable(vars: VariablesView, name: Seq<char>) -> Option<Seq<char>> {
    if vars.contains_key(name) {
        match vars[name] {
            CacheValueView::Text(s) => Some(s),
            CacheValueView::Other(_) => None,
        }
    } else {
        None
    }
}

/// The preset suits the configuration and the generator: it has a generator that contains the
/// keyword, a binary directory and an install prefix, and is for the configuration.
pub open spec fn suits(preset: PresetView, build_config: Seq<char>, keyword: Seq<char>) -> bool {
    &&& preset.generator is Some
    &&& text::contains_text(preset.generator->0, keyword)
    &&& preset.binary_dir is Some
    &&& preset.variables is Some
    &&& preset.variables->0.contains_key("CMAKE_INSTALL_PREFIX"@)
    &&& {
        ||| text_variable(preset.variables->0, "CMAKE_CONFIGURATION_TYPES"@) matches Some(types)
            && text::split_of(types, ';').contains(build_config)
        ||| text_variable(preset.variables->0, "CMAKE_BUILD_TYPE"@) == Some(build_config)
    }
}

/// The value of a variable, where it is a string.
fn get_text_variable(vars: &CacheVariables, name: &str) -> (r: Option<String>)
    ensures
        text::opt_text(r) == text_variable(vars@, name@),
{
    match vars.get(name) {
        Some(value) => match value.as_str() {
            Some(s) => Some(s.to_owned()),
            None => None,
        },
        None => None,
    }
}

/// Whether the preset suits the configuration and the generator.
pub fn check_preset_conditions(
    preset: &ConfigurePreset,
    build_config: &str,
    cmake_generator_keyword: &str,
) -> (r: bool)
    ensures
        r == suits(preset@, build_config@, cmake_generator_keyword@),
{
    let generator = match &preset.generator {
        Some(generator) => generator,
        None => {
            return false;
        },
    };
    if !text::contains(generator.as_str(), cmake_generator_keyword) {
        return false;
    }
    if preset.binary_dir.is_none() {
        return false;
    }
    let vars = match &preset.cache_variables {
        Some(vars) => vars,
        None => {
            return false;
        },
    };
    if !vars.contains_key("CMAKE_INSTALL_PREFIX") {
        return false;
    }
    if let Some(types) = get_text_variable(vars, "CMAKE_CONFIGURATION_TYPES") {
        let list = text::split(types.as_str(), ';');
        let found = text::texts_contain(&list, build_config);
        if found {
            return true;
        }
    }
    match get_text_variable(vars, "CMAKE_BUILD_TYPE") {
        Some(build_type) => text::same_text(build_type.as_str(), build_config),
        None => false,
    }
}

/// Index of the first of the first `n` presets that suits.
pub open spec fn first_suitable(
    presets: Seq<PresetView>,
    build_config: Seq<char>,
    keyword: Seq<char>,
    n: int,
) -> Option<int>
    decreases n,
{
    if n <= 0 {
        None
    } else {
        match first_suitable(presets, build_config, keyword, n - 1) {
            Some(i) => Some(i),
            None => if suits(presets[n - 1], build_config, keyword) {
                Some(n - 1)
            } else {
                None
            },
        }
    }
}

/// The preset to build on: the preferred one where it suits, otherwise the first that does.
pub open spec fn base_preset(
    presets: Seq<PresetView>,
    build_config: Seq<char>,
    keyword: Seq<char>,
    preferred: Option<int>,
) -> Option<int> {
    match preferred {
        Some(i) => if 0 <= i < presets.len() && suits(presets[i], build_config, keyword) {
            Some(i)
        } else {
            first_suitable(presets, build_config, keyword, presets.len() as int)
        },
        None => first_suitable(presets, build_config, keyword, presets.len() as int),
    }
}

proof fn lemma_first_suitable_stays(
    presets: Seq<PresetView>,
    build_config: Seq<char>,
    keyword: Seq<char>,
    k: int,
    n: int,
)
    requires
        0 <= k <= n,
        first_suitable(presets, build_config, keyword, k) is Some,
    ensures
        first_suitable(presets, build_config, keyword, n) == first_suitable(
            presets,
            build_config,
            keyword,
            k,
        ),
    decreases n - k,
{
    if k < n {
        lemma_first_suitable_stays(presets, build_config, keyword, k, n - 1);
    }
}

/// The preset to build on.
pub fn find_based_preset(
    presets: &Vec<ConfigurePreset>,
    build_config: &str,
    cmake_generator_keyword: &str,
    priority_preset: Option<usize>,
) -> (r: Result<usize, PresetError>)
    ensures
        ({
            let views = cmake_presets::preset_views(presets@);
            let chosen = base_preset(
                views,
                build_config@,
                cmake_generator_keyword@,
                match priority_preset {
                    Some(i) => Some(i as int),
                    None => None,
                },
            );
            match r {
                Ok(i) => i < presets@.len() && chosen == Some(i as int) && suits(
                    views[i as int],
                    build_config@,
                    cmake_generator_keyword@,
                ),
                Err(e) => chosen is None && e@ == (PresetFault::NoSuitablePreset {
                    build_config: build_config@,
                    keyword: cmake_generator_keyword@,
                }),
            }
        }),
{
    let ghost views = cmake_presets::preset_views(presets@);
    if let Some(i) = priority_preset {
        if i < presets.len() {
            assert(views[i as int] == presets@[i as int]@);
            if check_preset_conditions(&presets[i], build_config, cmake_generator_keyword) {
                return Ok(i);
            }
        }
    }
    for i in 0..presets.len()
        invariant
            views == cmake_presets::preset_views(presets@),
            first_suitable(views, build_config@, cmake_generator_keyword@, i as int) is None,
            base_preset(
                views,
                build_config@,
                cmake_generator_keyword@,
                match priority_preset {
                    Some(i) => Some(i as int),
                    None => None,
                },
            ) == first_suitable(
                views,
                build_config@,
                cmake_generator_keyword@,
                views.len() as int,
            ),
    {
        assert(views[i as int] == presets@[i as int]@);
        if check_preset_conditions(&presets[i], build_config, cmake_generator_keyword) {
            proof {
                lemma_first_suitable_stays(
                    views,
                    build_config@,
                    cmake_generator_keyword@,
                    i + 1,
                    views.len() as int,
                );
            }
            return Ok(i);
        }
    }
    Err(
        PresetError::NoSuitablePreset {
            build_config: build_config.to_owned(),
            keyword: cmake_generator_keyword.to_owned(),
        },
    )
}

/// The name of the preset that is made for a repository.
pub open spec fn dev_preset_name() -> Seq<char> {
    "multi_repo_dev_config"@
}

/// A package that the repository requires.
pub struct CMakeDependencyInfo {
    pub cmake_pkg_name: String,
    pub cmake_pkg_config_dir: String,
}

/// The content of a [`CMakeDependencyInfo`].
pub struct DependencyView {
    pub name: Seq<char>,
    pub config_dir: Seq<char>,
}

impl View for CMakeDependencyInfo {
    type V = DependencyView;

    open spec fn view(&self) -> DependencyView {
        DependencyView { name: self.cmake_pkg_name@, config_dir: self.cmake_pkg_config_dir@ }
    }
}

/// The content of every dependency of a list.
pub open spec fn dependency_views(list: Seq<CMakeDependencyInfo>) -> Seq<DependencyView> {
    Seq::new(list.len(), |i: int| list[i]@)
}

/// The variables without those that name the directory of a package.
pub open spec fn without_dirs(vars: VariablesView) -> VariablesView {
    Map::new(
        |k: Seq<char>| vars.contains_key(k) && !text::ends_in(k, "_DIR"@),
        |k: Seq<char>| vars[k],
    )
}

/// The variables with the directory of each of the first `n` packages.
pub open spec fn with_dirs(
    context: PathContext,
    vars: VariablesView,
    dependencies: Seq<DependencyView>,
    n: int,
) -> VariablesView
    decreases n,
{
    if n <= 0 {
        vars
    } else {
        let d = dependencies[n - 1];
        with_dirs(context, vars, dependencies, n - 1).insert(
            d.name + "_DIR"@,
            CacheValueView::Text(cmake_path(context, d.config_dir)),
        )
    }
}

/// The variables of the preset that is made for a repository, from those it has, as far as they
/// do not name the directory of a package.
pub open spec fn equipped_variables(
    context: PathContext,
    vars: Option<VariablesView>,
    build_config: Seq<char>,
    generator: Seq<char>,
    toolchain: Option<Seq<char>>,
) -> VariablesView {
    let own = match vars {
        Some(own) => own,
        None => Map::empty(),
    };
    let typed = own.remove("CMAKE_INSTALL_PREFIX"@).insert(
        "CMAKE_CONFIGURATION_TYPES"@,
        CacheValueView::Text(build_config),
    ).insert("CMAKE_BUILD_TYPE"@, CacheValueView::Text(build_config));
    let exporting = if text::contains_text(generator, "Ninja"@) {
        typed.insert("CMAKE_EXPORT_COMPILE_COMMANDS"@, CacheValueView::Text("ON"@))
    } else {
        typed.remove("CMAKE_EXPORT_COMPILE_COMMANDS"@)
    };
    match toolchain {
        Some(file) => exporting.insert(
            "CMAKE_TOOLCHAIN_FILE"@,
            CacheValueView::Text(cmake_path(context, file)),
        ),
        None => exporting.remove("CMAKE_TOOLCHAIN_FILE"@),
    }
}

/// The variables of the preset that is made for a repository, from those it has.
pub open spec fn dev_variables(
    context: PathContext,
    vars: Option<VariablesView>,
    build_config: Seq<char>,
    generator: Seq<char>,
    toolchain: Option<Seq<char>>,
    dependencies: Seq<DependencyView>,
) -> VariablesView {
    with_dirs(
        context,
        without_dirs(
            equipped_variables(context, vars, build_config, generator, toolchain),
        ),
        dependencies,
        dependencies.len() as int,
    )
}

/// The variables without those that name the directory of a package.
fn drop_dirs(vars: &CacheVariables) -> (r: CacheVariables)
    ensures
        r@ == without_dirs(vars@),
{
    let n: usize = vars.len();
    let mut out: CacheVariables = TextMap::new();
    for i in 0..n
        invariant
            n == vars.keys().len(),
            vars.keys().no_duplicates(),
            forall|k: Seq<char>| #[trigger] vars@.contains_key(k) <==> vars.keys().contains(k),
            forall|k: Seq<char>| #[trigger]
                out@.contains_key(k) <==> vars.keys().take(i as int).contains(k)
                    && !text::ends_in(k, "_DIR"@),
            forall|k: Seq<char>| out@.contains_key(k) ==> #[trigger] out@[k] == vars@[k],
    {
        let ghost key = vars.keys()[i as int];
        proof {
            let seen = vars.keys().take(i as int);
            let upto = vars.keys().take(i + 1);
            assert(upto =~= seen.push(key));
            assert forall|k: Seq<char>| #[trigger] upto.contains(k) <==> seen.contains(k) || k
                == key by {
                if seen.contains(k) {
                    let j = choose|j: int| 0 <= j < seen.len() && seen[j] == k;
                    assert(upto[j] == k);
                }
                if upto.contains(k) && k != key {
                    let j = choose|j: int| 0 <= j < upto.len() && upto[j] == k;
                    assert(seen[j] == k);
                }
                if k == key {
                    assert(upto[i as int] == k);
                }
            }
        }
        if !text::ends_with(vars.key_at(i).as_str(), "_DIR") {
            out.insert(vars.key_at(i).clone(), vars.value_at(i).copy());
        }
    }
    proof {
        assert(vars.keys().take(n as int) =~= vars.keys());
        assert(out@ =~= without_dirs(vars@));
    }
    out
}

/// A text variable.
fn set_text(vars: &mut CacheVariables, name: &str, value: String)
    ensures
        final(vars)@ == old(vars)@.insert(name@, CacheValueView::Text(value@)),
{
    vars.insert(name.to_owned(), CacheValue::Text(value));
}

/// The variables of the preset that is made for a repository.
fn make_dev_variables(
    context: &PathContext,
    vars: &Option<CacheVariables>,
    build_config: &str,
    generator: &str,
    toolchain: &Option<String>,
    dependencies: &Vec<CMakeDependencyInfo>,
) -> (r: CacheVariables)
    ensures
        r@ == dev_variables(
            *context,
            cmake_presets::opt_variables(*vars),
            build_config@,
            generator@,
            text::opt_text(*toolchain),
            dependency_views(dependencies@),
        ),
{
    let mut own = match vars {
        Some(own) => cmake_presets::copy_variables(own),
        None => TextMap::new(),
    };
    let _ = own.remove("CMAKE_INSTALL_PREFIX");
    set_text(&mut own, "CMAKE_CONFIGURATION_TYPES", build_config.to_owned());
    set_text(&mut own, "CMAKE_BUILD_TYPE", build_config.to_owned());
    if text::contains(generator, "Ninja") {
        set_text(&mut own, "CMAKE_EXPORT_COMPILE_COMMANDS", "ON".to_owned());
    } else {
        let _ = own.remove("CMAKE_EXPORT_COMPILE_COMMANDS");
    }
    match toolchain {
        Some(file) => {
            set_text(
                &mut own,
                "CMAKE_TOOLCHAIN_FILE",
                convert_to_cmake_path(context, file.as_str()),
            );
        },
        None => {
            let _ = own.remove("CMAKE_TOOLCHAIN_FILE");
        },
    }
    let ghost all = dependency_views(dependencies@);
    let mut out = drop_dirs(&own);
    let ghost start = out@;
    for i in 0..dependencies.len()
        invariant
            all == dependency_views(dependencies@),
            out@ == with_dirs(*context, start, all, i as int),
    {
        assert(all[i as int] == dependencies@[i as int]@);
        let mut name = dependencies[i].cmake_pkg_name.clone();
        name.append("_DIR");
        let dir = convert_to_cmake_path(context, dependencies[i].cmake_pkg_config_dir.as_str());
        set_text(&mut out, name.as_str(), dir);
    }
    out
}

/// Index of the first preset with the name.
pub open spec fn first_preset_named(presets: Seq<PresetView>, name: Seq<char>) -> Option<int>
    decreases presets.len(),
{
    if presets.len() == 0 {
        None
    } else {
        match first_preset_named(presets.drop_last(), name) {
            Some(i) => Some(i),
            None => if presets.last().name == name {
                Some(presets.len() - 1)
            } else {
                None
            },
        }
    }
}

proof fn lemma_first_preset_named_take(presets: Seq<PresetView>, name: Seq<char>, n: int)
    requires
        0 <= n <= presets.len(),
        first_preset_named(presets.take(n), name) is Some,
    ensures
        first_preset_named(presets, name) == first_preset_named(presets.take(n), name),
    decreases presets.len() - n,
{
    if n == presets.len() {
        assert(presets.take(n) =~= presets);
    } else {
        assert(presets.take(n + 1).drop_last() =~= presets.take(n));
        lemma_first_preset_named_take(presets, name, n + 1);
    }
}

/// Index of the first preset with the name.
fn find_preset(presets: &Vec<ConfigurePreset>, name: &str) -> (r: Option<usize>)
    ensures
        match r {
            Some(i) => i < presets@.len() && first_preset_named(
                cmake_presets::preset_views(presets@),
                name@,
            ) == Some(i as int),
            None => first_preset_named(cmake_presets::preset_views(presets@), name@) is None,
        },
{
    let ghost views = cmake_presets::preset_views(presets@);
    for i in 0..presets.len()
        invariant
            views == cmake_presets::preset_views(presets@),
            first_preset_named(views.take(i as int), name@) is None,
    {
        assert(views.take(i + 1).drop_last() =~= views.take(i as int));
        if text::same_text(presets[i].name.as_str(), name) {
            proof {
                lemma_first_preset_named_take(views, name@, i + 1);
            }
            return Some(i);
        }
    }
    assert(views.take(views.len() as int) =~= views);
    None
}

/// The preset that a preset was last made from: the first it inherits from.
pub open spec fn preferred_base(presets: Seq<PresetView>, dev: PresetView) -> Option<int> {
    match dev.inherits {
        Some(parents) => if parents.len() > 0 {
            first_preset_named(presets, parents[0])
        } else {
            None
        },
        None => None,
    }
}

/// What is made of a preset to build on.
pub struct BaseUpdate {
    pub base: int,
    pub generator: Seq<char>,
    pub binary_dir: Seq<char>,
    pub install_dir: Seq<char>,
    pub dev: PresetView,
}

/// The preset for a repository, made from one of `presets`.
pub open spec fn updated_dev_preset(
    context: PathContext,
    presets: Seq<PresetView>,
    dev: PresetView,
    build_config: Seq<char>,
    keyword: Seq<char>,
    toolchain: Option<Seq<char>>,
    dependencies: Seq<DependencyView>,
) -> Result<BaseUpdate, PresetFault> {
    match base_preset(presets, build_config, keyword, preferred_base(presets, dev)) {
        None => Err(PresetFault::NoSuitablePreset { build_config, keyword }),
        Some(i) => {
            let base = presets[i];
            match (base.generator, base.binary_dir, base.variables) {
                (Some(generator), Some(binary_dir), Some(vars)) => match text_variable(
                    vars,
                    "CMAKE_INSTALL_PREFIX"@,
                ) {
                    None => Err(PresetFault::NoInstallPrefix),
                    Some(install_dir) => Ok(
                        BaseUpdate {
                            base: i,
                            generator,
                            binary_dir,
                            install_dir,
                            dev: PresetView {
                                inherits: Some(seq![base.name]),
                                binary_dir: None,
                                variables: Some(
                                    dev_variables(
                                        context,
                                        dev.variables,
                                        build_config,
                                        generator,
                                        toolchain,
                                        dependencies,
                                    ),
                                ),
                                ..dev
                            },
                        },
                    ),
                },
                (None, _, _) => Err(PresetFault::NoGenerator),
                (_, None, _) => Err(PresetFault::NoBinaryDir),
                _ => Err(PresetFault::NoInstallPrefix),
            }
        },
    }
}

/// What the preset to build on gives for the preset of a repository.
pub struct DevPresetBaseUpdateResult {
    pub binary_dir: String,
    pub install_dir: String,
    pub base_idx: usize,
    pub cmake_generator: String,
}

/// Makes preset `dev_idx` of the user the preset for a repository, from one of `presets`. Where
/// that fails the user's presets stay as they are.
pub fn update_dev_preset_from_base(
    context: &PathContext,
    presets: &Vec<ConfigurePreset>,
    user_presets: &mut Vec<ConfigurePreset>,
    dev_idx: usize,
    build_config: &str,
    cmake_generator_keyword: &str,
    toolchain_file: &Option<String>,
    dependencies: &Vec<CMakeDependencyInfo>,
) -> (r: Result<DevPresetBaseUpdateResult, PresetError>)
    requires
        dev_idx < old(user_presets)@.len(),
    ensures
        ({
            let before = cmake_presets::preset_views(old(user_presets)@);
            let after = cmake_presets::preset_views(final(user_presets)@);
            let update = updated_dev_preset(
                *context,
                cmake_presets::preset_views(presets@),
                before[dev_idx as int],
                build_config@,
                cmake_generator_keyword@,
                text::opt_text(*toolchain_file),
                dependency_views(dependencies@),
            );
            match r {
                Ok(result) => update == Ok::<BaseUpdate, PresetFault>(
                    BaseUpdate {
                        base: result.base_idx as int,
                        generator: result.cmake_generator@,
                        binary_dir: result.binary_dir@,
                        install_dir: result.install_dir@,
                        dev: after[dev_idx as int],
                    },
                ) && after == before.update(dev_idx as int, after[dev_idx as int])
                    && result.base_idx < presets@.len(),
                Err(e) => update == Err::<BaseUpdate, PresetFault>(e@) && after == before,
            }
        }),
{
    let ghost views = cmake_presets::preset_views(presets@);
    let ghost before = cmake_presets::preset_views(user_presets@);
    assert(before[dev_idx as int] == user_presets@[dev_idx as int]@);
    let preferred = match &user_presets[dev_idx].inherits {
        Some(parents) => if parents.len() > 0 {
            assert(text::texts(parents@)[0] == parents@[0]@);
            find_preset(presets, parents[0].as_str())
        } else {
            None
        },
        None => None,
    };
    let base_idx = match find_based_preset(
        presets,
        build_config,
        cmake_generator_keyword,
        preferred,
    ) {
        Ok(i) => i,
        Err(e) => {
            return Err(e);
        },
    };
    let base = &presets[base_idx];
    assert(views[base_idx as int] == base@);
    let cmake_generator = match &base.generator {
        Some(generator) => generator.clone(),
        None => {
            return Err(PresetError::NoGenerator);
        },
    };
    let binary_dir = match &base.binary_dir {
        Some(dir) => dir.clone(),
        None => {
            return Err(PresetError::NoBinaryDir);
        },
    };
    let install_dir = match &base.cache_variables {
        Some(vars) => match get_text_variable(vars, "CMAKE_INSTALL_PREFIX") {
            Some(dir) => dir,
            None => {
                return Err(PresetError::NoInstallPrefix);
            },
        },
        None => {
            return Err(PresetError::NoInstallPrefix);
        },
    };
    let mut inherits: Vec<String> = Vec::new();
    inherits.push(base.name.clone());
    assert(text::texts(inherits@) =~= seq![base.name@]);
    let mut dev = user_presets[dev_idx].copy();
    let vars = make_dev_variables(
        context,
        &dev.cache_variables,
        build_config,
        cmake_generator.as_str(),
        toolchain_file,
        dependencies,
    );
    dev.inherits = Some(inherits);
    dev.binary_dir = None;
    dev.cache_variables = Some(vars);
    user_presets.set(dev_idx, dev);
    assert(cmake_presets::preset_views(user_presets@) =~= before.update(dev_idx as int, dev@));
    Ok(DevPresetBaseUpdateResult { binary_dir, install_dir, base_idx, cmake_generator })
}

/// The presets other than the one that is made for the repository, in their order.
pub open spec fn own_presets(user: Seq<PresetView>) -> Seq<PresetView>
    decreases user.len(),
{
    if user.len() == 0 {
        Seq::empty()
    } else if user.last().name == dev_preset_name() {
        own_presets(user.drop_last())
    } else {
        own_presets(user.drop_last()).push(user.last())
    }
}

/// The presets to build on: those of the user before those of the repository, each with what
/// it inherits. Returns whether filling that in came to an end.
pub fn prepare_base_preset_candidates(
    presets: &mut Vec<ConfigurePreset>,
    user_presets: &Vec<ConfigurePreset>,
) -> (r: bool)
    requires
        old(presets)@.len() + user_presets@.len() <= u32::MAX,
    ensures
        ({
            let all = own_presets(cmake_presets::preset_views(user_presets@))
                + cmake_presets::preset_views(old(presets)@);
            cmake_presets::expand_first(all, all.len() as int) == (if r {
                Some(cmake_presets::preset_views(final(presets)@))
            } else {
                None
            })
        }),
{
    let ghost user = cmake_presets::preset_views(user_presets@);
    let ghost repo = cmake_presets::preset_views(presets@);
    let mut all: Vec<ConfigurePreset> = Vec::new();
    assert(cmake_presets::preset_views(all@) =~= Seq::empty());
    for i in 0..user_presets.len()
        invariant
            user == cmake_presets::preset_views(user_presets@),
            cmake_presets::preset_views(all@) == own_presets(user.take(i as int)),
            all@.len() <= i,
    {
        assert(user.take(i + 1).drop_last() =~= user.take(i as int));
        if !text::same_text(user_presets[i].name.as_str(), "multi_repo_dev_config") {
            let ghost before = all@;
            all.push(user_presets[i].copy());
            assert(cmake_presets::preset_views(all@) =~= cmake_presets::preset_views(before).push(
                user[i as int],
            ));
        }
    }
    assert(user.take(user.len() as int) =~= user);
    let ghost own = cmake_presets::preset_views(all@);
    assert(own =~= own + repo.take(0));
    for i in 0..presets.len()
        invariant
            presets@ == old(presets)@,
            repo == cmake_presets::preset_views(presets@),
            cmake_presets::preset_views(all@) == own + repo.take(i as int),
            own.len() <= user_presets@.len(),
            all@.len() == own.len() + i,
    {
        let ghost before = all@;
        all.push(presets[i].copy());
        assert(cmake_presets::preset_views(all@) =~= cmake_presets::preset_views(before).push(
            repo[i as int],
        ));
        assert(own + repo.take(i + 1) =~= (own + repo.take(i as int)).push(repo[i as int]));
    }
    assert(repo.take(repo.len() as int) =~= repo);
    let r = cmake_presets::expand_cmake_preset_inheritance(&mut all);
    *presets = all;
    r
}

/// An optional text as a list: whether it is there, and the text.
pub open spec fn opt_parts(s: Option<Seq<char>>) -> Seq<Seq<char>> {
    match s {
        Some(t) => seq!["1"@, t],
        None => seq!["0"@],
    }
}

/// An optional list: whether it is there, its length, and its members.
pub open spec fn opt_list_parts(list: Option<Seq<Seq<char>>>) -> Seq<Seq<char>> {
    match list {
        Some(l) => seq!["1"@] + hash::list_parts(l),
        None => seq!["0"@],
    }
}

/// A value: of what kind it is, and its text.
pub open spec fn value_parts(v: CacheValueView) -> Seq<Seq<char>> {
    match v {
        CacheValueView::Text(s) => seq!["s"@, s],
        CacheValueView::Other(s) => seq!["j"@, s],
    }
}

/// The first `n` variables in the order of `keys`, each with its value.
pub open spec fn variable_parts(
    vars: VariablesView,
    keys: Seq<Seq<char>>,
    n: int,
) -> Seq<Seq<char>>
    decreases n,
{
    if n <= 0 {
        Seq::empty()
    } else {
        variable_parts(vars, keys, n - 1).push(keys[n - 1]) + value_parts(vars[keys[n - 1]])
    }
}

/// Optional variables: whether they are there, how many, and each with its value, in ascending
/// order.
pub open spec fn opt_variable_parts(vars: Option<VariablesView>) -> Seq<Seq<char>> {
    match vars {
        Some(v) => {
            let keys = maps::ascending_keys(v);
            seq!["1"@, text::decimal_of(keys.len())] + variable_parts(v, keys, keys.len() as int)
        },
        None => seq!["0"@],
    }
}

/// A truth value as a text.
pub open spec fn flag_part(b: bool) -> Seq<char> {
    if b {
        "1"@
    } else {
        "0"@
    }
}

/// An optional truth value as a text.
pub open spec fn opt_flag_part(b: Option<bool>) -> Seq<char> {
    match b {
        Some(b) => flag_part(b),
        None => "-"@,
    }
}

/// A preset as a list of texts.
pub open spec fn preset_parts(p: PresetView) -> Seq<Seq<char>> {
    seq![p.name] + opt_list_parts(p.inherits) + opt_parts(p.generator) + opt_parts(p.binary_dir)
        + opt_variable_parts(p.variables) + tail_parts(p)
}

/// Appends an optional text.
fn put_opt(out: &mut Vec<String>, s: &Option<String>)
    ensures
        text::texts(final(out)@) == text::texts(old(out)@) + opt_parts(text::opt_text(*s)),
{
    match s {
        Some(t) => {
            text::push_text(out, "1".to_owned());
            text::push_text(out, t.clone());
        },
        None => {
            text::push_text(out, "0".to_owned());
        },
    }
    assert(text::texts(out@) =~= text::texts(old(out)@) + opt_parts(text::opt_text(*s)));
}

/// Appends the variables.
fn put_variables(out: &mut Vec<String>, vars: &CacheVariables)
    ensures
        text::texts(final(out)@) == text::texts(old(out)@) + opt_variable_parts(Some(vars@)),
{
    let ghost start = text::texts(out@);
    let n: usize = vars.len();
    let ghost keys = vars.keys();
    text::push_text(out, "1".to_owned());
    text::push_text(out, text::decimal(n));
    let ghost head = seq!["1"@, text::decimal_of(n as nat)];
    assert(text::texts(out@) =~= start + (head + variable_parts(vars@, keys, 0)));
    for i in 0..n
        invariant
            n == vars.keys().len(),
            keys == vars.keys(),
            text::texts(out@) == start + (head + variable_parts(vars@, keys, i as int)),
    {
        let ghost before = text::texts(out@);
        text::push_text(out, vars.key_at(i).clone());
        match vars.value_at(i) {
            CacheValue::Text(s) => {
                text::push_text(out, "s".to_owned());
                text::push_text(out, s.clone());
            },
            CacheValue::Other(s) => {
                text::push_text(out, "j".to_owned());
                text::push_text(out, s.clone());
            },
        }
        proof {
            assert(text::texts(out@) =~= before.push(keys[i as int]) + value_parts(
                vars@[keys[i as int]],
            ));
            assert(text::texts(out@) =~= start + (head + variable_parts(vars@, keys, i + 1)));
        }
    }
}

/// A truth value as a text.
fn flag(b: bool) -> (r: String)
    ensures
        r@ == flag_part(b),
{
    if b {
        "1".to_owned()
    } else {
        "0".to_owned()
    }
}

/// Appends an optional list.
fn put_opt_list(out: &mut Vec<String>, list: &Option<Vec<String>>)
    ensures
        text::texts(final(out)@) == text::texts(old(out)@) + opt_list_parts(
            cmake_presets::opt_texts(*list),
        ),
{
    match list {
        Some(l) => {
            text::push_text(out, "1".to_owned());
            hash::append_list(out, l);
        },
        None => {
            text::push_text(out, "0".to_owned());
        },
    }
    assert(text::texts(out@) =~= text::texts(old(out)@) + opt_list_parts(
        cmake_presets::opt_texts(*list),
    ));
}

/// Appends optional variables.
fn put_opt_variables(out: &mut Vec<String>, vars: &Option<CacheVariables>)
    ensures
        text::texts(final(out)@) == text::texts(old(out)@) + opt_variable_parts(
            cmake_presets::opt_variables(*vars),
        ),
{
    match vars {
        Some(v) => {
            put_variables(out, v);
        },
        None => {
            text::push_text(out, "0".to_owned());
            assert(text::texts(out@) =~= text::texts(old(out)@) + seq!["0"@]);
        },
    }
}

/// The last texts of a preset.
pub open spec fn tail_parts(p: PresetView) -> Seq<Seq<char>> {
    seq![
        opt_flag_part(p.hidden),
        p.extra,
        text::decimal_of(p.depth as nat),
        flag_part(p.has_expanded),
    ]
}

/// Appends the last texts of a preset.
fn put_tail(out: &mut Vec<String>, p: &ConfigurePreset)
    ensures
        text::texts(final(out)@) == text::texts(old(out)@) + tail_parts(p@),
{
    text::push_text(
        out,
        match p.hidden {
            Some(b) => flag(b),
            None => "-".to_owned(),
        },
    );
    text::push_text(out, p.extra.clone());
    text::push_text(out, text::decimal(p.depth as usize));
    text::push_text(out, flag(p.has_expanded));
    assert(text::texts(out@) =~= text::texts(old(out)@) + tail_parts(p@));
}

proof fn lemma_six_parts(
    start: Seq<Seq<char>>,
    a: Seq<char>,
    b: Seq<Seq<char>>,
    c: Seq<Seq<char>>,
    d: Seq<Seq<char>>,
    e: Seq<Seq<char>>,
    f: Seq<Seq<char>>,
)
    ensures
        start.push(a) + b + c + d + e + f == start + (seq![a] + b + c + d + e + f),
{
    assert(start.push(a) + b + c + d + e + f =~= start + (seq![a] + b + c + d + e + f));
}

/// Appends a preset.
fn put_preset(out: &mut Vec<String>, p: &ConfigurePreset)
    ensures
        text::texts(final(out)@) == text::texts(old(out)@) + preset_parts(p@),
{
    let ghost start = text::texts(out@);
    text::push_text(out, p.name.clone());
    put_opt_list(out, &p.inherits);
    put_opt(out, &p.generator);
    put_opt(out, &p.binary_dir);
    put_opt_variables(out, &p.cache_variables);
    put_tail(out, p);
    proof {
        lemma_six_parts(
            start,
            p@.name,
            opt_list_parts(p@.inherits),
            opt_parts(p@.generator),
            opt_parts(p@.binary_dir),
            opt_variable_parts(p@.variables),
            tail_parts(p@),
        );
    }
}

/// Whether two optional texts are the same.
fn same_opt(a: &Option<String>, b: &Option<String>) -> (r: bool)
    ensures
        r == (text::opt_text(*a) == text::opt_text(*b)),
{
    match (a, b) {
        (Some(x), Some(y)) => text::same_text(x.as_str(), y.as_str()),
        (None, None) => true,
        _ => false,
    }
}

/// Whether two lists are the same.
fn same_list(a: &Vec<String>, b: &Vec<String>) -> (r: bool)
    ensures
        r == (text::texts(a@) == text::texts(b@)),
{
    let ghost x = text::texts(a@);
    let ghost y = text::texts(b@);
    if a.len() != b.len() {
        assert(x.len() != y.len());
        return false;
    }
    for i in 0..a.len()
        invariant
            x == text::texts(a@),
            y == text::texts(b@),
            x.len() == y.len(),
            forall|j: int| 0 <= j < i ==> x[j] == y[j],
    {
        assert(x[i as int] == a@[i as int]@ && y[i as int] == b@[i as int]@);
        if !text::same_text(a[i].as_str(), b[i].as_str()) {
            return false;
        }
    }
    assert(x =~= y);
    true
}

/// Whether every variable of `a` is in `b` with the same value.
fn is_within(a: &CacheVariables, b: &CacheVariables) -> (r: bool)
    ensures
        r == (forall|k: Seq<char>| #[trigger]
            a@.contains_key(k) ==> b@.contains_key(k) && b@[k] == a@[k]),
{
    let n: usize = a.len();
    for i in 0..n
        invariant
            n == a.keys().len(),
            forall|k: Seq<char>| #[trigger] a@.contains_key(k) <==> a.keys().contains(k),
            forall|j: int|
                0 <= j < i ==> b@.contains_key(#[trigger] a.keys()[j]) && b@[a.keys()[j]]
                    == a@[a.keys()[j]],
    {
        let fits = match b.get(a.key_at(i).as_str()) {
            Some(v) => v.same(a.value_at(i)),
            None => false,
        };
        if !fits {
            assert(a@.contains_key(a.keys()[i as int]));
            return false;
        }
    }
    assert forall|k: Seq<char>| #[trigger] a@.contains_key(k) implies b@.contains_key(k) && b@[k]
        == a@[k] by {
        let j = choose|j: int| 0 <= j < a.keys().len() && a.keys()[j] == k;
        assert(b@.contains_key(a.keys()[j]));
    }
    true
}

/// Whether two optional sets of variables are the same.
fn same_variables(a: &Option<CacheVariables>, b: &Option<CacheVariables>) -> (r: bool)
    ensures
        r == (cmake_presets::opt_variables(*a) == cmake_presets::opt_variables(*b)),
{
    match (a, b) {
        (Some(x), Some(y)) => {
            let r = is_within(x, y) && is_within(y, x);
            proof {
                if r {
                    assert(x@ =~= y@);
                }
            }
            r
        },
        (None, None) => true,
        _ => false,
    }
}

/// Whether two presets are the same.
pub fn same_preset(a: &ConfigurePreset, b: &ConfigurePreset) -> (r: bool)
    ensures
        r == (a@ == b@),
{
    let inherits = match (&a.inherits, &b.inherits) {
        (Some(x), Some(y)) => same_list(x, y),
        (None, None) => true,
        _ => false,
    };
    let hidden = match (a.hidden, b.hidden) {
        (Some(x), Some(y)) => x == y,
        (None, None) => true,
        _ => false,
    };
    text::same_text(a.name.as_str(), b.name.as_str()) && inherits && same_opt(
        &a.generator,
        &b.generator,
    ) && same_opt(&a.binary_dir, &b.binary_dir) && same_variables(
        &a.cache_variables,
        &b.cache_variables,
    ) && hidden && text::same_text(a.extra.as_str(), b.extra.as_str()) && a.depth == b.depth
        && a.has_expanded == b.has_expanded
}

/// What preparing the preset for a repository comes to.
pub struct PreparedView {
    /// The presets of the user, with the one for the repository.
    pub user: Seq<PresetView>,
    /// Whether they are to be saved.
    pub changed: bool,
    /// What the preset and the one it is made from hold.
    pub parts: Seq<Seq<char>>,
    pub binary_dir: Seq<char>,
    pub install_dir: Seq<char>,
    pub generator: Seq<char>,
}

/// The user's presets with one for the repository, and its index.
pub open spec fn with_dev_preset(user: Seq<PresetView>) -> (Seq<PresetView>, int) {
    match first_preset_named(user, dev_preset_name()) {
        Some(i) => (user, i),
        None => (
            user.push(cmake_presets::named_preset(dev_preset_name())),
            user.len() as int,
        ),
    }
}

/// The preset for a repository, prepared from the presets of the repository and of its user.
pub open spec fn prepared(
    context: PathContext,
    repo_path: Seq<char>,
    presets: Seq<PresetView>,
    user: Seq<PresetView>,
    build_config: Seq<char>,
    keyword: Seq<char>,
    toolchain: Option<Seq<char>>,
    dependencies: Seq<DependencyView>,
) -> Result<PreparedView, PresetFault> {
    let all = own_presets(user) + presets;
    match cmake_presets::expand_first(all, all.len() as int) {
        None => Err(PresetFault::CyclicInheritance),
        Some(candidates) => {
            let (list, dev) = with_dev_preset(user);
            match updated_dev_preset(
                context,
                candidates,
                list[dev],
                build_config,
                keyword,
                toolchain,
                dependencies,
            ) {
                Err(e) => Err(e),
                Ok(update) => match repo_relative(
                    context,
                    repo_path,
                    update.binary_dir,
                    "binaryDir"@,
                ) {
                    Err(e) => Err(e),
                    Ok(binary_dir) => match repo_relative(
                        context,
                        repo_path,
                        update.install_dir,
                        "CMAKE_INSTALL_PREFIX"@,
                    ) {
                        Err(e) => Err(e),
                        Ok(install_dir) => Ok(
                            PreparedView {
                                user: list.update(dev, update.dev),
                                changed: list[dev] != update.dev,
                                parts: preset_parts(candidates[update.base]) + preset_parts(
                                    update.dev,
                                ),
                                binary_dir,
                                install_dir,
                                generator: update.generator,
                            },
                        ),
                    },
                },
            }
        },
    }
}

/// The preset for a repository.
pub struct DevPresetUpdateResult {
    /// The presets of the user, with the one for the repository.
    pub user_presets: CMakePresets,
    /// Whether they are to be saved.
    pub changed: bool,
    /// What the preset and the one it is made from hold.
    pub parts: Vec<String>,
    pub binary_dir: String,
    pub install_dir: String,
    pub dev_preset_name: String,
    pub cmake_generator: String,
}

/// Prepares the preset for a repository. Where that fails there is nothing to save.
pub fn prepare_dev_preset(
    context: &PathContext,
    repo_path: &str,
    presets: CMakePresets,
    user_presets: CMakePresets,
    build_config: &str,
    cmake_generator_keyword: &str,
    conan_toolchain_path: &Option<String>,
    dependencies: &Vec<CMakeDependencyInfo>,
) -> (r: Result<DevPresetUpdateResult, PresetError>)
    requires
        presets.configure_presets@.len() + user_presets.configure_presets@.len() <= u32::MAX,
    ensures
        ({
            let outcome = prepared(
                *context,
                repo_path@,
                cmake_presets::preset_views(presets.configure_presets@),
                cmake_presets::preset_views(user_presets.configure_presets@),
                build_config@,
                cmake_generator_keyword@,
                text::opt_text(*conan_toolchain_path),
                dependency_views(dependencies@),
            );
            match r {
                Ok(result) => {
                    &&& outcome == Ok::<PreparedView, PresetFault>(
                        PreparedView {
                            user: cmake_presets::preset_views(
                                result.user_presets.configure_presets@,
                            ),
                            changed: result.changed,
                            parts: text::texts(result.parts@),
                            binary_dir: result.binary_dir@,
                            install_dir: result.install_dir@,
                            generator: result.cmake_generator@,
                        },
                    )
                    &&& result.dev_preset_name@ == dev_preset_name()
                    &&& result.user_presets.version == user_presets.version
                    &&& result.user_presets.build_presets == user_presets.build_presets
                    &&& result.user_presets.extra == user_presets.extra
                },
                Err(e) => outcome == Err::<PreparedView, PresetFault>(e@),
            }
        }),
{
    let ghost user = cmake_presets::preset_views(user_presets.configure_presets@);
    let mut candidates = presets.configure_presets;
    if !prepare_base_preset_candidates(&mut candidates, &user_presets.configure_presets) {
        return Err(PresetError::CyclicInheritance);
    }
    let ghost base_views = cmake_presets::preset_views(candidates@);
    let mut list = user_presets.configure_presets;
    let dev_idx = match find_preset(&list, "multi_repo_dev_config") {
        Some(i) => i,
        None => {
            let ghost before = list@;
            list.push(ConfigurePreset::new_with_name("multi_repo_dev_config"));
            assert(cmake_presets::preset_views(list@) =~= cmake_presets::preset_views(before).push(
                cmake_presets::named_preset(dev_preset_name()),
            ));
            list.len() - 1
        },
    };
    let ghost start = cmake_presets::preset_views(list@);
    assert((start, dev_idx as int) == with_dev_preset(user));
    let original = list[dev_idx].copy();
    assert(original@ == start[dev_idx as int]);
    let update = match update_dev_preset_from_base(
        context,
        &candidates,
        &mut list,
        dev_idx,
        build_config,
        cmake_generator_keyword,
        conan_toolchain_path,
        dependencies,
    ) {
        Ok(update) => update,
        Err(e) => {
            return Err(e);
        },
    };
    let ghost after = cmake_presets::preset_views(list@);
    assert(after.len() == start.len());
    assert(after[dev_idx as int] == list@[dev_idx as int]@);
    let binary_dir = match resolve_repo_relative_preset_path(
        context,
        repo_path,
        update.binary_dir.as_str(),
        "binaryDir",
    ) {
        Ok(dir) => dir,
        Err(e) => {
            return Err(e);
        },
    };
    let install_dir = match resolve_repo_relative_preset_path(
        context,
        repo_path,
        update.install_dir.as_str(),
        "CMAKE_INSTALL_PREFIX",
    ) {
        Ok(dir) => dir,
        Err(e) => {
            return Err(e);
        },
    };
    let changed = !same_preset(&original, &list[dev_idx]);
    let mut parts: Vec<String> = Vec::new();
    put_preset(&mut parts, &candidates[update.base_idx]);
    put_preset(&mut parts, &list[dev_idx]);
    proof {
        assert(base_views[update.base_idx as int] == candidates@[update.base_idx as int]@);
        assert(text::texts(parts@) =~= preset_parts(base_views[update.base_idx as int])
            + preset_parts(after[dev_idx as int]));
    }
    Ok(
        DevPresetUpdateResult {
            user_presets: CMakePresets {
                version: user_presets.version,
                configure_presets: list,
                build_presets: user_presets.build_presets,
                extra: user_presets.extra,
            },
            changed,
            parts,
            binary_dir,
            install_dir,
            dev_preset_name: "multi_repo_dev_config".to_owned(),
            cmake_generator: update.cmake_generator,
        },
    )
}

/// What configuring a repository is to be done with.
pub struct CMakeConfigureInfo {
    pub repo_path: String,
    pub build_config: String,
    /// Whether CMake is to run in any case.
    pub need_cmake: bool,
    /// Whether CMake is to start afresh in any case.
    pub need_cmake_fresh: bool,
    pub conan_toolchain_path: Option<String>,
    pub conan_toolchain_hash: HashType,
    pub extra_cmake_options: Vec<String>,
    pub cmake_generator_keyword: String,
}

/// A repository to configure.
pub struct CMakeConfigureInput {
    pub repo_config: CMakeConfigureInfo,
    pub dependencies: Vec<CMakeDependencyInfo>,
}

/// What a repository was last configured with.
#[derive(Clone, Copy)]
pub struct CMakeConfigureFingerprint {
    pub executing_cmake_hash: HashType,
    pub conan_toolchain_hash: HashType,
    pub executing_fresh_hash: HashType,
}

/// What configuring a repository gives.
pub struct CMakeConfigureOutput {
    pub cmake_pkg_name: String,
    pub install_prefix: String,
    pub cmake_binary_dir: String,
    pub cmake_generator: String,
}

/// Configures repositories.
pub struct CMakeConfigureTask<E> {
    /// The environment of the developer tools.
    pub vs_dev_env: E,
}

impl<E> CMakeConfigureTask<E> {
    /// Configures in this environment.
    pub fn new(vs_dev_env: E) -> (r: Self)
        ensures
            r.vs_dev_env == vs_dev_env,
    {
        CMakeConfigureTask { vs_dev_env }
    }
}

impl<E> TaskMeta for CMakeConfigureTask<E> {
    fn id(&self) -> (r: &'static str)
        ensures
            r@ == "cmake_configure"@,
    {
        "cmake_configure"
    }
}

/// CMake is to start afresh: on demand, or where it did not run before, or the packages, the
/// generator or the toolchain changed.
pub open spec fn needs_fresh(
    demanded: bool,
    last: Option<CMakeConfigureFingerprint>,
    now: CMakeConfigureFingerprint,
) -> bool {
    ||| demanded
    ||| last is None
    ||| last->0.executing_fresh_hash != now.executing_fresh_hash
    ||| last->0.conan_toolchain_hash != now.conan_toolchain_hash
}

/// CMake is to run: on demand, or where it is to start afresh, or the presets or the options
/// changed.
pub open spec fn needs_configure(
    demanded: bool,
    fresh: bool,
    last: Option<CMakeConfigureFingerprint>,
    now: CMakeConfigureFingerprint,
) -> bool {
    ||| demanded
    ||| fresh
    ||| last is None
    ||| last->0.executing_cmake_hash != now.executing_cmake_hash
}

/// Whether CMake is to run, and whether it is to start afresh.
pub fn decide_configure(
    need_cmake: bool,
    need_cmake_fresh: bool,
    last: &Option<CMakeConfigureFingerprint>,
    now: &CMakeConfigureFingerprint,
) -> (r: (bool, bool))
    ensures
        r.1 == needs_fresh(need_cmake_fresh, *last, *now),
        r.0 == needs_configure(need_cmake, r.1, *last, *now),
{
    let (cmake_changed, fresh_changed, toolchain_changed) = match last {
        Some(last) => (
            last.executing_cmake_hash != now.executing_cmake_hash,
            last.executing_fresh_hash != now.executing_fresh_hash,
            last.conan_toolchain_hash != now.conan_toolchain_hash,
        ),
        None => (true, true, true),
    };
    let fresh = need_cmake_fresh || fresh_changed || toolchain_changed;
    (need_cmake || fresh || cmake_changed, fresh)
}

/// The names of the packages.
pub open spec fn dependency_names(dependencies: Seq<DependencyView>) -> Seq<Seq<char>> {
    Seq::new(dependencies.len(), |i: int| dependencies[i].name)
}

/// What the repository is configured with now.
pub open spec fn fingerprint_of(
    prepared: PreparedView,
    extra_options: Seq<Seq<char>>,
    toolchain_hash: HashType,
    dependencies: Seq<DependencyView>,
) -> CMakeConfigureFingerprint {
    CMakeConfigureFingerprint {
        executing_cmake_hash: hash::hash_of(prepared.parts + hash::list_parts(extra_options)),
        conan_toolchain_hash: toolchain_hash,
        executing_fresh_hash: hash::hash_of(
            hash::list_parts(maps::ascending_set(dependency_names(dependencies))).push(
                prepared.generator,
            ),
        ),
    }
}

/// The arguments that CMake is run with.
pub open spec fn configure_arguments(fresh: bool, extra_options: Seq<Seq<char>>) -> Seq<Seq<char>> {
    seq!["--preset="@ + dev_preset_name(), "-Wno-dev"@] + (if fresh {
        seq!["--fresh"@]
    } else {
        Seq::empty()
    }) + extra_options
}

/// How a repository is to be configured.
pub struct ConfigurePlan {
    pub preset: DevPresetUpdateResult,
    /// Whether CMake is to run.
    pub need_configure: bool,
    /// Whether it is to start afresh.
    pub need_fresh: bool,
    /// The arguments that it is run with.
    pub arguments: Vec<String>,
    pub fingerprint: CMakeConfigureFingerprint,
}

/// What a preset that was prepared comes to.
pub open spec fn prepared_view(result: DevPresetUpdateResult) -> PreparedView {
    PreparedView {
        user: cmake_presets::preset_views(result.user_presets.configure_presets@),
        changed: result.changed,
        parts: text::texts(result.parts@),
        binary_dir: result.binary_dir@,
        install_dir: result.install_dir@,
        generator: result.cmake_generator@,
    }
}

/// What the repository is configured with now.
fn make_fingerprint(
    preset: &DevPresetUpdateResult,
    info: &CMakeConfigureInfo,
    dependencies: &Vec<CMakeDependencyInfo>,
) -> (r: CMakeConfigureFingerprint)
    ensures
        r == fingerprint_of(
            prepared_view(*preset),
            text::texts(info.extra_cmake_options@),
            info.conan_toolchain_hash,
            dependency_views(dependencies@),
        ),
{
    let mut parts = text::clone_texts(&preset.parts);
    hash::append_list(&mut parts, &info.extra_cmake_options);
    let executing_cmake_hash = hash::hash_texts(&parts);
    let ghost all = dependency_names(dependency_views(dependencies@));
    let mut names: Vec<String> = Vec::new();
    for i in 0..dependencies.len()
        invariant
            all == dependency_names(dependency_views(dependencies@)),
            text::texts(names@) == all.take(i as int),
    {
        text::push_text(&mut names, dependencies[i].cmake_pkg_name.clone());
        assert(all.take(i + 1) =~= all.take(i as int).push(all[i as int]));
    }
    assert(all.take(all.len() as int) =~= all);
    let sorted = maps::sorted_set(&names);
    let mut fresh_parts: Vec<String> = Vec::new();
    hash::append_list(&mut fresh_parts, &sorted);
    text::push_text(&mut fresh_parts, preset.cmake_generator.clone());
    assert(text::texts(fresh_parts@) =~= hash::list_parts(maps::ascending_set(all)).push(
        preset.cmake_generator@,
    ));
    CMakeConfigureFingerprint {
        executing_cmake_hash,
        conan_toolchain_hash: info.conan_toolchain_hash,
        executing_fresh_hash: hash::hash_texts(&fresh_parts),
    }
}

/// The arguments that CMake is run with.
fn make_arguments(preset_name: &str, fresh: bool, extra_options: &Vec<String>) -> (r: Vec<String>)
    requires
        preset_name@ == dev_preset_name(),
    ensures
        text::texts(r@) == configure_arguments(fresh, text::texts(extra_options@)),
{
    let ghost more = text::texts(extra_options@);
    let mut out: Vec<String> = Vec::new();
    let mut first = "--preset=".to_owned();
    first.append(preset_name);
    text::push_text(&mut out, first);
    text::push_text(&mut out, "-Wno-dev".to_owned());
    if fresh {
        text::push_text(&mut out, "--fresh".to_owned());
    }
    let ghost head = text::texts(out@);
    assert(head =~= configure_arguments(fresh, Seq::empty()));
    assert(head =~= head + more.take(0));
    for i in 0..extra_options.len()
        invariant
            more == text::texts(extra_options@),
            text::texts(out@) == head + more.take(i as int),
    {
        text::push_text(&mut out, extra_options[i].clone());
        assert(head + more.take(i + 1) =~= (head + more.take(i as int)).push(more[i as int]));
    }
    assert(more.take(more.len() as int) =~= more);
    assert(head + more =~= configure_arguments(fresh, more));
    out
}

/// How a repository is to be configured.
pub fn cmake_configure(
    context: &PathContext,
    info: &CMakeConfigureInfo,
    presets: CMakePresets,
    user_presets: CMakePresets,
    dependencies: &Vec<CMakeDependencyInfo>,
    last_fingerprint: &Option<CMakeConfigureFingerprint>,
) -> (r: Result<ConfigurePlan, PresetError>)
    requires
        presets.configure_presets@.len() + user_presets.configure_presets@.len() <= u32::MAX,
    ensures
        ({
            let outcome = prepared(
                *context,
                info.repo_path@,
                cmake_presets::preset_views(presets.configure_presets@),
                cmake_presets::preset_views(user_presets.configure_presets@),
                info.build_config@,
                info.cmake_generator_keyword@,
                text::opt_text(info.conan_toolchain_path),
                dependency_views(dependencies@),
            );
            match r {
                Ok(plan) => {
                    &&& outcome == Ok::<PreparedView, PresetFault>(prepared_view(plan.preset))
                    &&& plan.preset.dev_preset_name@ == dev_preset_name()
                    &&& plan.preset.user_presets.version == user_presets.version
                    &&& plan.preset.user_presets.build_presets == user_presets.build_presets
                    &&& plan.preset.user_presets.extra == user_presets.extra
                    &&& plan.fingerprint == fingerprint_of(
                        prepared_view(plan.preset),
                        text::texts(info.extra_cmake_options@),
                        info.conan_toolchain_hash,
                        dependency_views(dependencies@),
                    )
                    &&& plan.need_fresh == needs_fresh(
                        info.need_cmake_fresh,
                        *last_fingerprint,
                        plan.fingerprint,
                    )
                    &&& plan.need_configure == needs_configure(
                        info.need_cmake,
                        plan.need_fresh,
                        *last_fingerprint,
                        plan.fingerprint,
                    )
                    &&& text::texts(plan.arguments@) == configure_arguments(
                        plan.need_fresh,
                        text::texts(info.extra_cmake_options@),
                    )
                },
                Err(e) => outcome == Err::<PreparedView, PresetFault>(e@),
            }
        }),
{
    let preset = match prepare_dev_preset(
        context,
        info.repo_path.as_str(),
        presets,
        user_presets,
        info.build_config.as_str(),
        info.cmake_generator_keyword.as_str(),
        &info.conan_toolchain_path,
        dependencies,
    ) {
        Ok(preset) => preset,
        Err(e) => {
            return Err(e);
        },
    };
    let fingerprint = make_fingerprint(&preset, info, dependencies);
    let (need_configure, need_fresh) = decide_configure(
        info.need_cmake,
        info.need_cmake_fresh,
        last_fingerprint,
        &fingerprint,
    );
    let arguments = make_arguments(
        preset.dev_preset_name.as_str(),
        need_fresh,
        &info.extra_cmake_options,
    );
    Ok(ConfigurePlan { preset, need_configure, need_fresh, arguments, fingerprint })
}

/// The absolute directory that a path from the root of the repository leads to.
pub open spec fn directory_in_repo(
    context: PathContext,
    repo_path: Seq<char>,
    relative: Seq<char>,
) -> Seq<char> {
    context.absolute(paths::joined_path(context.style_view(), repo_path, relative))
}

/// The absolute directory that a path from the root of the repository leads to.
pub fn resolve_in_repo(context: &PathContext, repo_path: &str, relative: &str) -> (r: String)
    ensures
        r@ == directory_in_repo(*context, repo_path@, relative@),
{
    let style = context.style();
    context.absolutize(paths::join(&style, repo_path, relative).as_str())
}

/// What configuring a repository gave, where the CMake cache names the project.
pub fn cmake_configure_output(
    context: &PathContext,
    repo_path: &str,
    binary_dir: &str,
    install_dir: &str,
    cmake_generator: String,
    cache_content: &str,
) -> (r: Option<CMakeConfigureOutput>)
    ensures
        match first_project_name(text::lines_of(cache_content@)) {
            Some(name) => {
                &&& r is Some
                &&& r->0.cmake_pkg_name@ == name
                &&& r->0.install_prefix@ == directory_in_repo(
                    *context,
                    repo_path@,
                    install_dir@,
                )
                &&& r->0.cmake_binary_dir@ == directory_in_repo(*context, repo_path@, binary_dir@)
                &&& r->0.cmake_generator == cmake_generator
            },
            None => r is None,
        },
{
    match parse_cmake_project_name_from_cache(cache_content) {
        Some(name) => Some(
            CMakeConfigureOutput {
                cmake_pkg_name: name,
                install_prefix: resolve_in_repo(context, repo_path, install_dir),
                cmake_binary_dir: resolve_in_repo(context, repo_path, binary_dir),
                cmake_generator,
            },
        ),
        None => None,
    }
}

/// The directory of a package among the first `n`; the last with the variable counts.
pub open spec fn dir_value(
    context: PathContext,
    dependencies: Seq<DependencyView>,
    key: Seq<char>,
    n: int,
) -> Option<CacheValueView>
    decreases n,
{
    if n <= 0 {
        None
    } else if dependencies[n - 1].name + "_DIR"@ == key {
        Some(CacheValueView::Text(cmake_path(context, dependencies[n - 1].config_dir)))
    } else {
        dir_value(context, dependencies, key, n - 1)
    }
}

proof fn lemma_with_dirs(
    context: PathContext,
    vars: VariablesView,
    dependencies: Seq<DependencyView>,
    n: int,
    key: Seq<char>,
)
    ensures
        ({
            let all = with_dirs(context, vars, dependencies, n);
            match dir_value(context, dependencies, key, n) {
                Some(v) => all.contains_key(key) && all[key] == v,
                None => all.contains_key(key) == vars.contains_key(key) && (all.contains_key(key)
                    ==> all[key] == vars[key]),
            }
        }),
        dir_value(context, dependencies, key, n) is Some ==> text::ends_in(key, "_DIR"@),
    decreases n,
{
    if n > 0 {
        lemma_with_dirs(context, vars, dependencies, n - 1, key);
        let name = dependencies[n - 1].name;
        if name + "_DIR"@ == key {
            assert(key.skip(key.len() - "_DIR"@.len()) =~= "_DIR"@);
        }
    }
}

pub proof fn lemma_fixed_variables()
    ensures
        !text::ends_in("CMAKE_INSTALL_PREFIX"@, "_DIR"@),
        !text::ends_in("CMAKE_CONFIGURATION_TYPES"@, "_DIR"@),
        !text::ends_in("CMAKE_BUILD_TYPE"@, "_DIR"@),
        !text::ends_in("CMAKE_EXPORT_COMPILE_COMMANDS"@, "_DIR"@),
        !text::ends_in("CMAKE_TOOLCHAIN_FILE"@, "_DIR"@),
        "CMAKE_INSTALL_PREFIX"@ != "CMAKE_CONFIGURATION_TYPES"@,
        "CMAKE_INSTALL_PREFIX"@ != "CMAKE_BUILD_TYPE"@,
        "CMAKE_INSTALL_PREFIX"@ != "CMAKE_EXPORT_COMPILE_COMMANDS"@,
        "CMAKE_INSTALL_PREFIX"@ != "CMAKE_TOOLCHAIN_FILE"@,
        "CMAKE_CONFIGURATION_TYPES"@ != "CMAKE_EXPORT_COMPILE_COMMANDS"@,
        "CMAKE_CONFIGURATION_TYPES"@ != "CMAKE_TOOLCHAIN_FILE"@,
        "CMAKE_BUILD_TYPE"@ != "CMAKE_EXPORT_COMPILE_COMMANDS"@,
        "CMAKE_BUILD_TYPE"@ != "CMAKE_TOOLCHAIN_FILE"@,
        "CMAKE_EXPORT_COMPILE_COMMANDS"@ != "CMAKE_TOOLCHAIN_FILE"@,
{
    reveal_strlit("_DIR");
    reveal_strlit("CMAKE_INSTALL_PREFIX");
    reveal_strlit("CMAKE_CONFIGURATION_TYPES");
    reveal_strlit("CMAKE_BUILD_TYPE");
    reveal_strlit("CMAKE_EXPORT_COMPILE_COMMANDS");
    reveal_strlit("CMAKE_TOOLCHAIN_FILE");
    let dir = "_DIR"@;
    let a = "CMAKE_INSTALL_PREFIX"@;
    let b = "CMAKE_CONFIGURATION_TYPES"@;
    let c = "CMAKE_BUILD_TYPE"@;
    let d = "CMAKE_EXPORT_COMPILE_COMMANDS"@;
    let e = "CMAKE_TOOLCHAIN_FILE"@;
    assert(dir[3] == 'R');
    assert(a.skip(a.len() - 4)[3] == 'X');
    assert(b.skip(b.len() - 4)[3] == 'S');
    assert(c.skip(c.len() - 4)[3] == 'E');
    assert(d.skip(d.len() - 4)[3] == 'S');
    assert(e.skip(e.len() - 4)[3] == 'E');
    assert(a.len() == 20 && b.len() == 25 && c.len() == 16 && d.len() == 29 && e.len() == 20);
    assert(a[6] == 'I' && e[6] == 'T');
}

/// The preset that is made for a repository leaves the install prefix to the one it is made
/// from, is for the one configuration, exports compile commands just for a Ninja generator, and
/// names the directory of a package just where the repository requires the package.
pub proof fn law_dev_preset_variables(
    context: PathContext,
    vars: Option<VariablesView>,
    build_config: Seq<char>,
    generator: Seq<char>,
    toolchain: Option<Seq<char>>,
    dependencies: Seq<DependencyView>,
)
    ensures
        ({
            let all = dev_variables(
                context,
                vars,
                build_config,
                generator,
                toolchain,
                dependencies,
            );
            &&& !all.contains_key("CMAKE_INSTALL_PREFIX"@)
            &&& text_variable(all, "CMAKE_CONFIGURATION_TYPES"@) == Some(build_config)
            &&& text_variable(all, "CMAKE_BUILD_TYPE"@) == Some(build_config)
            &&& all.contains_key("CMAKE_EXPORT_COMPILE_COMMANDS"@) <==> text::contains_text(
                generator,
                "Ninja"@,
            )
            &&& all.contains_key("CMAKE_TOOLCHAIN_FILE"@) <==> toolchain is Some
            &&& forall|k: Seq<char>|
                #![trigger all.contains_key(k)]
                text::ends_in(k, "_DIR"@) ==> (all.contains_key(k) <==> dir_value(
                    context,
                    dependencies,
                    k,
                    dependencies.len() as int,
                ) is Some)
        }),
{
    lemma_fixed_variables();
    let all = dev_variables(context, vars, build_config, generator, toolchain, dependencies);
    let bare = without_dirs(
        equipped_variables(context, vars, build_config, generator, toolchain),
    );
    let n = dependencies.len() as int;
    assert(all == with_dirs(context, bare, dependencies, n));
    lemma_with_dirs(context, bare, dependencies, n, "CMAKE_INSTALL_PREFIX"@);
    lemma_with_dirs(context, bare, dependencies, n, "CMAKE_CONFIGURATION_TYPES"@);
    lemma_with_dirs(context, bare, dependencies, n, "CMAKE_BUILD_TYPE"@);
    lemma_with_dirs(context, bare, dependencies, n, "CMAKE_EXPORT_COMPILE_COMMANDS"@);
    lemma_with_dirs(context, bare, dependencies, n, "CMAKE_TOOLCHAIN_FILE"@);
    assert forall|k: Seq<char>|
        #![trigger all.contains_key(k)]
        text::ends_in(k, "_DIR"@) implies (all.contains_key(k) <==> dir_value(
        context,
        dependencies,
        k,
        n,
    ) is Some) by {
        lemma_with_dirs(context, bare, dependencies, n, k);
    }
}

proof fn lemma_dev_variables_twice(
    context: PathContext,
    vars: Option<VariablesView>,
    build_config: Seq<char>,
    generator: Seq<char>,
    toolchain: Option<Seq<char>>,
    dependencies: Seq<DependencyView>,
)
    ensures
        ({
            let all = dev_variables(
                context,
                vars,
                build_config,
                generator,
                toolchain,
                dependencies,
            );
            dev_variables(context, Some(all), build_config, generator, toolchain, dependencies)
                == all
        }),
{
    lemma_fixed_variables();
    let n = dependencies.len() as int;
    let once = dev_variables(context, vars, build_config, generator, toolchain, dependencies);
    let twice = dev_variables(
        context,
        Some(once),
        build_config,
        generator,
        toolchain,
        dependencies,
    );
    let bare1 = without_dirs(
        equipped_variables(context, vars, build_config, generator, toolchain),
    );
    let bare2 = without_dirs(
        equipped_variables(context, Some(once), build_config, generator, toolchain),
    );
    assert forall|k: Seq<char>|
        #![trigger once.dom().contains(k)]
        #![trigger twice.dom().contains(k)]
        once.dom().contains(k) == twice.dom().contains(k) && (once.dom().contains(k) ==> once[k]
            == twice[k]) by {
        lemma_with_dirs(context, bare1, dependencies, n, k);
        lemma_with_dirs(context, bare2, dependencies, n, k);
    }
    assert(once =~= twice);
}

proof fn lemma_first_preset_named(presets: Seq<PresetView>, name: Seq<char>)
    ensures
        match first_preset_named(presets, name) {
            Some(i) => 0 <= i < presets.len() && presets[i].name == name && (forall|j: int|
                0 <= j < i ==> (#[trigger] presets[j]).name != name),
            None => forall|j: int| 0 <= j < presets.len() ==> (#[trigger] presets[j]).name != name,
        },
    decreases presets.len(),
{
    if presets.len() > 0 {
        let rest = presets.drop_last();
        lemma_first_preset_named(rest, name);
        assert forall|j: int| 0 <= j < rest.len() implies rest[j] == presets[j] by {}
    }
}

proof fn lemma_first_suitable(
    presets: Seq<PresetView>,
    build_config: Seq<char>,
    keyword: Seq<char>,
    n: int,
)
    requires
        n <= presets.len(),
    ensures
        match first_suitable(presets, build_config, keyword, n) {
            Some(i) => 0 <= i < n && suits(presets[i], build_config, keyword) && (forall|j: int|
                0 <= j < i ==> !suits(#[trigger] presets[j], build_config, keyword)),
            None => forall|j: int|
                0 <= j < n ==> !suits(#[trigger] presets[j], build_config, keyword),
        },
    decreases n,
{
    if n > 0 {
        lemma_first_suitable(presets, build_config, keyword, n - 1);
    }
}

/// Making the preset for a repository a second time gives the same preset from the same one, so
/// there is nothing to save.
pub proof fn law_updating_twice_changes_nothing(
    context: PathContext,
    presets: Seq<PresetView>,
    dev: PresetView,
    build_config: Seq<char>,
    keyword: Seq<char>,
    toolchain: Option<Seq<char>>,
    dependencies: Seq<DependencyView>,
)
    ensures
        updated_dev_preset(
            context,
            presets,
            dev,
            build_config,
            keyword,
            toolchain,
            dependencies,
        ) matches Ok(update) ==> updated_dev_preset(
            context,
            presets,
            update.dev,
            build_config,
            keyword,
            toolchain,
            dependencies,
        ) == Ok::<BaseUpdate, PresetFault>(update),
{
    let first = updated_dev_preset(
        context,
        presets,
        dev,
        build_config,
        keyword,
        toolchain,
        dependencies,
    );
    if let Ok(update) = first {
        let i = update.base;
        let name = presets[i].name;
        lemma_first_suitable(presets, build_config, keyword, presets.len() as int);
        lemma_first_preset_named(presets, name);
        if let Some(parents) = dev.inherits {
            if parents.len() > 0 {
                lemma_first_preset_named(presets, parents[0]);
            }
        }
        assert(base_preset(presets, build_config, keyword, preferred_base(presets, dev)) == Some(
            i,
        ));
        assert(0 <= i < presets.len());
        assert(update.dev.inherits->0[0] == name);
        let j = first_preset_named(presets, name)->0;
        assert(presets[i].name == name);
        assert(preferred_base(presets, update.dev) == Some(j));
        assert(j <= i);
        assert(base_preset(presets, build_config, keyword, Some(j)) == Some(i));
        lemma_dev_variables_twice(
            context,
            dev.variables,
            build_config,
            update.generator,
            toolchain,
            dependencies,
        );
    }
}

/// A repository that was configured with what it is configured with now is configured again
/// only on demand.
pub proof fn law_unchanged_repository_is_skipped(
    need_cmake: bool,
    need_fresh: bool,
    now: CMakeConfigureFingerprint,
)
    ensures
        needs_fresh(need_fresh, Some(now), now) == need_fresh,
        needs_configure(need_cmake, need_fresh, Some(now), now) == (need_cmake || need_fresh),
{
}

/// Where a fresh start is demanded CMake runs, and starts afresh, whatever it ran with before.
pub proof fn law_demanded_fresh_start_is_passed_on(
    need_cmake: bool,
    last: Option<CMakeConfigureFingerprint>,
    now: CMakeConfigureFingerprint,
    extra_options: Seq<Seq<char>>,
)
    ensures
        needs_fresh(true, last, now),
        needs_configure(need_cmake, true, last, now),
        configure_arguments(true, extra_options).contains("--fresh"@),
{
    assert(configure_arguments(true, extra_options)[2] == "--fresh"@);
}

proof fn lemma_first_suitable_is_early(
    presets: Seq<PresetView>,
    build_config: Seq<char>,
    keyword: Seq<char>,
    i: int,
    n: int,
)
    requires
        0 <= i < n,
        suits(presets[i], build_config, keyword),
    ensures
        first_suitable(presets, build_config, keyword, n) matches Some(j) && 0 <= j <= i,
    decreases n,
{
    if i < n - 1 {
        lemma_first_suitable_is_early(presets, build_config, keyword, i, n - 1);
    } else {
        lemma_first_suitable_bounds(presets, build_config, keyword, n - 1);
    }
}

proof fn lemma_first_suitable_bounds(
    presets: Seq<PresetView>,
    build_config: Seq<char>,
    keyword: Seq<char>,
    n: int,
)
    ensures
        first_suitable(presets, build_config, keyword, n) matches Some(j) ==> 0 <= j < n,
    decreases n,
{
    if n > 0 {
        lemma_first_suitable_bounds(presets, build_config, keyword, n - 1);
    }
}

/// Presets of the user come first: where one of them suits, and none was built on before, one of
/// them is built on.
pub proof fn law_presets_of_the_user_come_first(
    user: Seq<PresetView>,
    presets: Seq<PresetView>,
    candidates: Seq<PresetView>,
    build_config: Seq<char>,
    keyword: Seq<char>,
    i: int,
)
    requires
        cmake_presets::expand_first(
            own_presets(user) + presets,
            (own_presets(user) + presets).len() as int,
        ) == Some(candidates),
        0 <= i < own_presets(user).len(),
        suits(candidates[i], build_config, keyword),
    ensures
        base_preset(candidates, build_config, keyword, None) matches Some(j) && 0 <= j
            < own_presets(user).len(),
{
    cmake_presets::law_own_fields_win(own_presets(user) + presets);
    lemma_first_suitable_is_early(
        candidates,
        build_config,
        keyword,
        i,
        candidates.len() as int,
    );
}

/// Two lists hold the same packages, each as often as the other, in whatever order.
pub open spec fn same_dependencies(a: Seq<DependencyView>, b: Seq<DependencyView>) -> bool {
    a.to_multiset() == b.to_multiset()
}

proof fn lemma_same_dependency(a: Seq<DependencyView>, b: Seq<DependencyView>, i: int) -> (j: int)
    requires
        same_dependencies(a, b),
        0 <= i < a.len(),
    ensures
        0 <= j < b.len(),
        b[j] == a[i],
{
    broadcast use vstd::seq_lib::group_to_multiset_ensures;

    assert(a.contains(a[i]));
    assert(a.to_multiset().count(a[i]) > 0);
    assert(b.contains(a[i]));
    b.index_of(a[i])
}

proof fn lemma_dir_value(
    context: PathContext,
    dependencies: Seq<DependencyView>,
    key: Seq<char>,
    n: int,
)
    requires
        0 <= n <= dependencies.len(),
        dependency_names(dependencies).no_duplicates(),
    ensures
        forall|i: int|
            0 <= i < n && #[trigger] dependencies[i].name + "_DIR"@ == key ==> dir_value(
                context,
                dependencies,
                key,
                n,
            ) == Some(CacheValueView::Text(cmake_path(context, dependencies[i].config_dir))),
        dir_value(context, dependencies, key, n) is Some ==> exists|i: int|
            0 <= i < n && #[trigger] dependencies[i].name + "_DIR"@ == key,
    decreases n,
{
    if n > 0 {
        lemma_dir_value(context, dependencies, key, n - 1);
        let last = dependencies[n - 1];
        assert forall|i: int|
            0 <= i < n && #[trigger] dependencies[i].name + "_DIR"@ == key implies dir_value(
            context,
            dependencies,
            key,
            n,
        ) == Some(CacheValueView::Text(cmake_path(context, dependencies[i].config_dir))) by {
            if last.name + "_DIR"@ == key {
                let names = dependency_names(dependencies);
                assert((last.name + "_DIR"@).take(last.name.len() as int) =~= last.name);
                let other = dependencies[i].name;
                assert((other + "_DIR"@).take(other.len() as int) =~= other);
                assert((other + "_DIR"@).len() == other.len() + "_DIR"@.len());
                assert((last.name + "_DIR"@).len() == last.name.len() + "_DIR"@.len());
                assert(other + "_DIR"@ == last.name + "_DIR"@);
                assert(other.len() == last.name.len());
                assert(names[i] == names[n - 1]);
                assert(i == n - 1);
            }
        }
    }
}

proof fn lemma_dev_variables_in_any_order(
    context: PathContext,
    vars: Option<VariablesView>,
    build_config: Seq<char>,
    generator: Seq<char>,
    toolchain: Option<Seq<char>>,
    a: Seq<DependencyView>,
    b: Seq<DependencyView>,
)
    requires
        same_dependencies(a, b),
        dependency_names(a).no_duplicates(),
        dependency_names(b).no_duplicates(),
    ensures
        dev_variables(context, vars, build_config, generator, toolchain, a) == dev_variables(
            context,
            vars,
            build_config,
            generator,
            toolchain,
            b,
        ),
{
    let bare = without_dirs(
        equipped_variables(context, vars, build_config, generator, toolchain),
    );
    let m = a.len() as int;
    let n = b.len() as int;
    let one = with_dirs(context, bare, a, m);
    let other = with_dirs(context, bare, b, n);
    assert forall|k: Seq<char>|
        #![trigger one.dom().contains(k)]
        #![trigger other.dom().contains(k)]
        one.dom().contains(k) == other.dom().contains(k) && (one.dom().contains(k) ==> one[k]
            == other[k]) by {
        lemma_with_dirs(context, bare, a, m, k);
        lemma_with_dirs(context, bare, b, n, k);
        lemma_dir_value(context, a, k, m);
        lemma_dir_value(context, b, k, n);
        if dir_value(context, a, k, m) is Some {
            let i = choose|i: int| 0 <= i < m && #[trigger] a[i].name + "_DIR"@ == k;
            let j = lemma_same_dependency(a, b, i);
            assert(b[j].name + "_DIR"@ == k);
        } else if dir_value(context, b, k, n) is Some {
            let j = choose|j: int| 0 <= j < n && #[trigger] b[j].name + "_DIR"@ == k;
            let i = lemma_same_dependency(b, a, j);
            assert(a[i].name + "_DIR"@ == k);
        }
    }
    assert(one =~= other);
}

proof fn lemma_names_in_any_order(a: Seq<DependencyView>, b: Seq<DependencyView>)
    requires
        same_dependencies(a, b),
    ensures
        dependency_names(a).to_set() == dependency_names(b).to_set(),
        dependency_names(a).no_duplicates() ==> dependency_names(b).no_duplicates(),
{
    let one = dependency_names(a);
    let other = dependency_names(b);
    assert forall|name: Seq<char>| one.to_set().contains(name) == other.to_set().contains(
        name,
    ) by {
        if one.contains(name) {
            let i = one.index_of(name);
            let j = lemma_same_dependency(a, b, i);
            assert(other[j] == name);
        }
        if other.contains(name) {
            let j = other.index_of(name);
            let i = lemma_same_dependency(b, a, j);
            assert(one[i] == name);
        }
    }
    assert(one.to_set() =~= other.to_set());
    if one.no_duplicates() {
        one.unique_seq_to_set();
        vstd::seq_lib::to_multiset_len(a);
        vstd::seq_lib::to_multiset_len(b);
        assert(other.to_set().len() == other.len());
        other.lemma_no_dup_set_cardinality();
    }
}

proof fn lemma_own_presets_stay(user: Seq<PresetView>, i: int, dev: PresetView)
    requires
        0 <= i < user.len(),
        user[i].name == dev_preset_name(),
        dev.name == dev_preset_name(),
    ensures
        own_presets(user.update(i, dev)) == own_presets(user),
    decreases user.len(),
{
    let after = user.update(i, dev);
    if i < user.len() - 1 {
        lemma_own_presets_stay(user.drop_last(), i, dev);
        assert(after.drop_last() =~= user.drop_last().update(i, dev));
    } else {
        assert(after.drop_last() =~= user.drop_last());
    }
}

proof fn lemma_dev_preset_stays(user: Seq<PresetView>, dev: PresetView)
    requires
        dev.name == dev_preset_name(),
    ensures
        ({
            let (list, at) = with_dev_preset(user);
            &&& 0 <= at < list.len()
            &&& list[at].name == dev_preset_name()
            &&& own_presets(list.update(at, dev)) == own_presets(user)
            &&& with_dev_preset(list.update(at, dev)) == (list.update(at, dev), at)
        }),
{
    let (list, at) = with_dev_preset(user);
    let after = list.update(at, dev);
    lemma_first_preset_named(user, dev_preset_name());
    lemma_first_preset_named(after, dev_preset_name());
    lemma_own_presets_stay(list, at, dev);
    if first_preset_named(user, dev_preset_name()) is None {
        assert(list.drop_last() =~= user);
    }
    assert(after[at] == dev);
    assert forall|j: int| 0 <= j < at implies (#[trigger] after[j]).name != dev_preset_name() by {
        assert(after[j] == user[j]);
    }
}

/// Configuring a repository again with the same presets, options, toolchain and packages, the
/// packages in whatever order, gives the same output and the same fingerprint, has nothing to
/// save, and does not run CMake unless that is demanded.
pub proof fn law_configuring_again_changes_nothing(
    context: PathContext,
    info: CMakeConfigureInfo,
    presets: Seq<PresetView>,
    user: Seq<PresetView>,
    first: Seq<DependencyView>,
    second: Seq<DependencyView>,
)
    requires
        same_dependencies(first, second),
        dependency_names(first).no_duplicates(),
    ensures
        prepared(
            context,
            info.repo_path@,
            presets,
            user,
            info.build_config@,
            info.cmake_generator_keyword@,
            text::opt_text(info.conan_toolchain_path),
            first,
        ) matches Ok(once) ==> {
            let twice = PreparedView { changed: false, ..once };
            let options = text::texts(info.extra_cmake_options@);
            let last = fingerprint_of(once, options, info.conan_toolchain_hash, first);
            let now = fingerprint_of(twice, options, info.conan_toolchain_hash, second);
            &&& prepared(
                context,
                info.repo_path@,
                presets,
                once.user,
                info.build_config@,
                info.cmake_generator_keyword@,
                text::opt_text(info.conan_toolchain_path),
                second,
            ) == Ok::<PreparedView, PresetFault>(twice)
            &&& now == last
            &&& !needs_fresh(false, Some(last), now)
            &&& !needs_configure(false, false, Some(last), now)
        },
{
    let build_config = info.build_config@;
    let keyword = info.cmake_generator_keyword@;
    let toolchain = text::opt_text(info.conan_toolchain_path);
    let outcome = prepared(
        context,
        info.repo_path@,
        presets,
        user,
        build_config,
        keyword,
        toolchain,
        first,
    );
    lemma_names_in_any_order(first, second);
    if let Ok(once) = outcome {
        let all = own_presets(user) + presets;
        let candidates = cmake_presets::expand_first(all, all.len() as int)->0;
        let (list, at) = with_dev_preset(user);
        let update = updated_dev_preset(
            context,
            candidates,
            list[at],
            build_config,
            keyword,
            toolchain,
            first,
        )->Ok_0;
        lemma_first_preset_named(user, dev_preset_name());
        lemma_dev_preset_stays(user, update.dev);
        law_updating_twice_changes_nothing(
            context,
            candidates,
            list[at],
            build_config,
            keyword,
            toolchain,
            first,
        );
        lemma_dev_variables_in_any_order(
            context,
            update.dev.variables,
            build_config,
            update.generator,
            toolchain,
            first,
            second,
        );
        assert(once.user[at] == update.dev);
        assert(updated_dev_preset(
            context,
            candidates,
            update.dev,
            build_config,
            keyword,
            toolchain,
            second,
        ) == Ok::<BaseUpdate, PresetFault>(update));
        assert(once.user.update(at, update.dev) =~= once.user);
    }
}

} // verus!
