//! Merging the projects of several solutions into one.

use crate::paths::{self, PathStyle};
use crate::sln::{self, GlobalSection, ProjectBlock, ProjectView, SectionView, SlnData, SlnError, SlnFault, SlnView};
use crate::text;
use vstd::prelude::*;

verus! {

/// A solution to merge in.
pub struct SourceSolution {
    pub path: String,
    /// The solution, or why it could not be read. One that is missing is passed over.
    pub parsed: Result<SlnData, SlnError>,
}

/// The content of a [`SourceSolution`].
pub struct SourceView {
    pub path: Seq<char>,
    pub parsed: Result<SlnView, SlnFault>,
}

impl View for SourceSolution {
    type V = SourceView;

    open spec fn view(&self) -> SourceView {
        SourceView {
            path: self.path@,
            parsed: match self.parsed {
                Ok(data) => Ok(data@),
                Err(e) => Err(e@),
            },
        }
    }
}

/// The content of every source of a list.
pub open spec fn source_views(sources: Seq<SourceSolution>) -> Seq<SourceView> {
    Seq::new(sources.len(), |i: int| sources[i]@)
}

/// Index of the first section with the name.
pub open spec fn section_named(sections: Seq<SectionView>, name: Seq<char>) -> Option<int>
    decreases sections.len(),
{
    if sections.len() == 0 {
        None
    } else {
        match section_named(sections.drop_last(), name) {
            Some(i) => Some(i),
            None => if sections.last().name == name {
                Some(sections.len() - 1)
            } else {
                None
            },
        }
    }
}

/// The lines of the first section with the name.
pub open spec fn lines_of_section(sections: Seq<SectionView>, name: Seq<char>) -> Seq<Seq<char>> {
    match section_named(sections, name) {
        Some(i) => sections[i].lines,
        None => Seq::empty(),
    }
}

/// The child and the parent that a line of the nesting section names.
pub open spec fn nested_pair(line: Seq<char>) -> Option<(Seq<char>, Seq<char>)> {
    let parts = text::split_of(line, '=');
    if parts.len() == 2 {
        Some((text::trim_of(parts[0]), text::trim_of(parts[1])))
    } else {
        None
    }
}

/// The parent of a project; the last line that names one counts.
pub open spec fn parent_of(lines: Seq<Seq<char>>, child: Seq<char>) -> Option<Seq<char>>
    decreases lines.len(),
{
    if lines.len() == 0 {
        None
    } else {
        match nested_pair(lines.last()) {
            Some((c, p)) => if c == child {
                Some(p)
            } else {
                parent_of(lines.drop_last(), child)
            },
            None => parent_of(lines.drop_last(), child),
        }
    }
}

/// The name of a folder; the last folder with the identifier counts.
pub open spec fn folder_name(projects: Seq<ProjectView>, guid: Seq<char>) -> Option<Seq<char>>
    decreases projects.len(),
{
    if projects.len() == 0 {
        None
    } else if !projects.last().is_file && projects.last().guid == guid {
        Some(projects.last().name)
    } else {
        folder_name(projects.drop_last(), guid)
    }
}

/// The folder's name alone, or nothing where the identifier is not that of a folder.
pub open spec fn own_name(projects: Seq<ProjectView>, guid: Seq<char>) -> Seq<Seq<char>> {
    match folder_name(projects, guid) {
        Some(name) => seq![name],
        None => Seq::empty(),
    }
}

/// The names of the folders around a project, outermost first, and its own; `None` where the
/// folders are nested deeper than `depth`.
pub open spec fn folder_chain(
    projects: Seq<ProjectView>,
    lines: Seq<Seq<char>>,
    guid: Seq<char>,
    depth: nat,
) -> Option<Seq<Seq<char>>>
    decreases depth,
{
    match parent_of(lines, guid) {
        None => Some(own_name(projects, guid)),
        Some(p) => if depth == 0 {
            None
        } else {
            match folder_chain(projects, lines, p, (depth - 1) as nat) {
                Some(around) => Some(around + own_name(projects, guid)),
                None => None,
            }
        },
    }
}

/// The path made of the names.
pub open spec fn path_of(style: char, names: Seq<Seq<char>>) -> Seq<char>
    decreases names.len(),
{
    if names.len() == 0 {
        Seq::empty()
    } else {
        paths::joined_path(style, path_of(style, names.drop_last()), names.last())
    }
}

/// The lines that nest the projects of a solution.
pub open spec fn nesting_lines(solution: SlnView) -> Seq<Seq<char>> {
    lines_of_section(solution.sections, "NestedProjects"@)
}

/// The path of a project through the folders of its solution; `None` where the folders
/// contain one another.
pub open spec fn folder_path(style: char, solution: SlnView, guid: Seq<char>) -> Option<Seq<char>> {
    let lines = nesting_lines(solution);
    match folder_chain(solution.projects, lines, guid, lines.len()) {
        Some(names) => Some(path_of(style, names)),
        None => None,
    }
}

/// Index of the first section with the name.
fn find_section(sections: &Vec<GlobalSection>, name: &str) -> (r: Option<usize>)
    ensures
        match r {
            Some(i) => i < sections@.len() && section_named(sln::section_views(sections@), name@)
                == Some(i as int),
            None => section_named(sln::section_views(sections@), name@) is None,
        },
{
    let ghost views = sln::section_views(sections@);
    for i in 0..sections.len()
        invariant
            views == sln::section_views(sections@),
            section_named(views.take(i as int), name@) is None,
    {
        assert(views.take(i + 1).drop_last() =~= views.take(i as int));
        if text::same_text(sections[i].name.as_str(), name) {
            proof {
                lemma_section_named_take(views, name@, i + 1);
            }
            return Some(i);
        }
    }
    assert(views.take(views.len() as int) =~= views);
    None
}

proof fn lemma_section_named_take(sections: Seq<SectionView>, name: Seq<char>, n: int)
    requires
        0 <= n <= sections.len(),
        section_named(sections.take(n), name) is Some,
    ensures
        section_named(sections, name) == section_named(sections.take(n), name),
    decreases sections.len() - n,
{
    if n == sections.len() {
        assert(sections.take(n) =~= sections);
    } else {
        assert(sections.take(n + 1).drop_last() =~= sections.take(n));
        lemma_section_named_take(sections, name, n + 1);
    }
}

pub proof fn lemma_section_named(sections: Seq<SectionView>, name: Seq<char>)
    ensures
        match section_named(sections, name) {
            Some(i) => 0 <= i < sections.len() && sections[i].name == name,
            None => true,
        },
    decreases sections.len(),
{
    if sections.len() > 0 {
        lemma_section_named(sections.drop_last(), name);
    }
}

/// The child and the parent that a line names.
fn read_pair(line: &str) -> (r: Option<(String, String)>)
    ensures
        match r {
            Some((c, p)) => nested_pair(line@) == Some((c@, p@)),
            None => nested_pair(line@) is None,
        },
{
    let parts = text::split(line, '=');
    assert(text::texts(parts@).len() == parts@.len());
    if parts.len() == 2 {
        assert(text::texts(parts@)[0] == parts@[0]@ && text::texts(parts@)[1] == parts@[1]@);
        Some((text::trim(parts[0].as_str()), text::trim(parts[1].as_str())))
    } else {
        None
    }
}

/// The parent of a project.
fn find_parent(lines: &Vec<String>, child: &str) -> (r: Option<String>)
    ensures
        text::opt_text(r) == parent_of(text::texts(lines@), child@),
{
    let ghost all = text::texts(lines@);
    let mut i: usize = lines.len();
    assert(all.take(i as int) =~= all);
    while i > 0
        invariant
            all == text::texts(lines@),
            i <= lines@.len(),
            parent_of(all, child@) == parent_of(all.take(i as int), child@),
        decreases i,
    {
        i -= 1;
        assert(all.take(i + 1).drop_last() =~= all.take(i as int));
        if let Some((c, p)) = read_pair(lines[i].as_str()) {
            if text::same_text(c.as_str(), child) {
                return Some(p);
            }
        }
    }
    None
}

/// The name of a folder.
fn find_folder_name(projects: &Vec<ProjectBlock>, guid: &str) -> (r: Option<String>)
    ensures
        text::opt_text(r) == folder_name(sln::project_views(projects@), guid@),
{
    let ghost views = sln::project_views(projects@);
    let mut i: usize = projects.len();
    assert(views.take(i as int) =~= views);
    while i > 0
        invariant
            views == sln::project_views(projects@),
            i <= projects@.len(),
            folder_name(views, guid@) == folder_name(views.take(i as int), guid@),
        decreases i,
    {
        i -= 1;
        assert(views.take(i + 1).drop_last() =~= views.take(i as int));
        if !projects[i].is_file && text::same_text(projects[i].guid.as_str(), guid) {
            return Some(projects[i].name.clone());
        }
    }
    None
}

/// The lines that nest the projects of a solution.
fn read_nesting_lines(solution: &SlnData) -> (r: Vec<String>)
    ensures
        text::texts(r@) == nesting_lines(solution@),
{
    match find_section(&solution.global_sections, "NestedProjects") {
        Some(i) => text::clone_texts(&solution.global_sections[i].lines),
        None => {
            let none: Vec<String> = Vec::new();
            assert(text::texts(none@) =~= Seq::empty());
            none
        },
    }
}

/// The path of a project through the folders of its solution.
pub fn get_folder_path(style: &PathStyle, solution: &SlnData, guid: &str) -> (r: Option<String>)
    ensures
        text::opt_text(r) == folder_path(style@, solution@, guid@),
{
    let lines = read_nesting_lines(solution);
    let ghost all = text::texts(lines@);
    let ghost projects = solution@.projects;
    let mut names: Vec<String> = Vec::new();
    let mut current = guid.to_owned();
    let mut left: usize = lines.len();
    assert(text::texts(names@).reverse() =~= Seq::empty());
    proof {
        let around = folder_chain(projects, all, guid@, all.len());
        assert(around is Some ==> around->0 + Seq::<Seq<char>>::empty() =~= around->0);
    }
    loop
        invariant_except_break
            folder_chain(projects, all, guid@, all.len()) == (match folder_chain(
                projects,
                all,
                current@,
                left as nat,
            ) {
                Some(around) => Some(around + text::texts(names@).reverse()),
                None => None,
            }),
        invariant
            all == text::texts(lines@),
            all == nesting_lines(solution@),
            projects == solution@.projects,
        ensures
            folder_chain(projects, all, guid@, all.len()) == Some(text::texts(names@).reverse()),
        decreases left,
    {
        let ghost before = names@;
        let ghost own = own_name(projects, current@);
        if let Some(name) = find_folder_name(&solution.projects, current.as_str()) {
            names.push(name);
            assert(text::texts(names@) =~= text::texts(before).push(name@));
        }
        assert(text::texts(names@).reverse() =~= own + text::texts(before).reverse());
        match find_parent(&lines, current.as_str()) {
            None => {
                break;
            },
            Some(p) => {
                if left == 0 {
                    return None;
                }
                proof {
                    let around = folder_chain(projects, all, p@, (left - 1) as nat);
                    assert(around is Some ==> (around->0 + own) + text::texts(before).reverse()
                        =~= around->0 + text::texts(names@).reverse());
                }
                current = p;
                left -= 1;
            },
        }
    }
    let ghost chain = text::texts(names@).reverse();
    let mut path = String::new();
    let mut i: usize = names.len();
    assert(chain.take(0) =~= Seq::empty());
    while i > 0
        invariant
            i <= names@.len(),
            chain == text::texts(names@).reverse(),
            path@ == path_of(style@, chain.take(names@.len() - i)),
        decreases i,
    {
        i -= 1;
        proof {
            let upto = chain.take(names@.len() - i);
            assert(upto.drop_last() =~= chain.take(names@.len() - i - 1));
            assert(upto.last() == names@[i as int]@);
        }
        path = paths::join(style, path.as_str(), names[i].as_str());
    }
    assert(chain.take(names@.len() as int) =~= chain);
    Some(path)
}

/// A hexadecimal digit with letters of one case.
pub open spec fn is_hex(c: char, upper: bool) -> bool {
    ||| '0' <= c <= '9'
    ||| upper && 'A' <= c <= 'F'
    ||| !upper && 'a' <= c <= 'f'
}

/// The text of an identifier: hexadecimal digits in five groups that hyphens part.
pub open spec fn is_uuid(s: Seq<char>, upper: bool) -> bool {
    &&& s.len() == 36
    &&& forall|i: int|
        0 <= i < 36 ==> if i == 8 || i == 13 || i == 18 || i == 23 {
            #[trigger] s[i] == '-'
        } else {
            is_hex(s[i], upper)
        }
}

/// The namespace of host names, in which the identifiers of folders are made.
pub const DNS_NAMESPACE: u128 = 0x6ba7b8109dad11d180b400c04fd430c8;

/// The upper-case text of `uuid::Uuid::new_v5` over a namespace and a name.
pub uninterp spec fn named_uuid(namespace: u128, name: Seq<char>) -> Seq<char>;

/// `uuid::Uuid::new_v5` over a namespace and a name, as upper-case text with hyphens.
#[verifier::external_body]
fn name_uuid(namespace: u128, name: &str) -> (r: String)
    ensures
        r@ == named_uuid(namespace, name@),
        is_uuid(r@, true),
{
    let id = uuid::Uuid::new_v5(&uuid::Uuid::from_u128(namespace), name.as_bytes());
    id.hyphenated().encode_upper(&mut uuid::Uuid::encode_buffer()).to_string()
}

/// `uuid::Uuid::new_v4` as lower-case text with hyphens. It is drawn at random.
#[verifier::external_body]
fn random_uuid() -> (r: String)
    ensures
        is_uuid(r@, false),
{
    uuid::Uuid::new_v4().to_string()
}

/// What merging has come to: the merged solution, and the paths of its projects and folders.
#[verifier::ext_equal]
pub struct MergeState {
    pub target: SlnView,
    pub known: Seq<Seq<char>>,
}

/// What adding the projects of one source has come to: the projects, their paths, and the
/// identifiers of those that were added.
#[verifier::ext_equal]
pub struct Added {
    pub projects: Seq<ProjectView>,
    pub known: Seq<Seq<char>>,
    pub guids: Seq<Seq<char>>,
}

/// The path is among those known.
pub open spec fn is_known(style: char, known: Seq<Seq<char>>, path: Seq<char>) -> bool {
    exists|k: int|
        0 <= k < known.len() && (#[trigger] known[k] == path || paths::same_path(
            style,
            known[k],
            path,
        ))
}

/// The list with the text at its end, unless it holds it.
pub open spec fn with_text(list: Seq<Seq<char>>, s: Seq<char>) -> Seq<Seq<char>> {
    if list.contains(s) {
        list
    } else {
        list.push(s)
    }
}

/// The list without the text.
pub open spec fn without_text(list: Seq<Seq<char>>, s: Seq<char>) -> Seq<Seq<char>>
    decreases list.len(),
{
    if list.len() == 0 {
        Seq::empty()
    } else if list.last() == s {
        without_text(list.drop_last(), s)
    } else {
        without_text(list.drop_last(), s).push(list.last())
    }
}

/// `before` with a project of the source: one that is a file under its path from the target,
/// one that is a folder under the folder of the source. A path that is known, and the project
/// that builds everything, add nothing. `None` where folders contain one another.
pub open spec fn add_project(
    style: char,
    source: SlnView,
    folder: Seq<char>,
    relative: Seq<char>,
    first_guid: Seq<char>,
    before: Added,
    p: ProjectView,
) -> Option<Added> {
    if p.is_file {
        let path = paths::joined_path(style, relative, p.path);
        if p.name == "ALL_BUILD"@ || is_known(style, before.known, path) {
            Some(before)
        } else {
            Some(
                Added {
                    projects: before.projects.push(ProjectView { path, ..p }),
                    known: before.known.push(path),
                    guids: with_text(before.guids, p.guid),
                },
            )
        }
    } else {
        match folder_path(style, source, p.guid) {
            None => None,
            Some(inner) => {
                let path = paths::joined_path(style, folder, inner);
                if is_known(style, before.known, path) {
                    Some(before)
                } else {
                    Some(
                        Added {
                            projects: before.projects.push(ProjectView { first_guid, ..p }),
                            known: before.known.push(path),
                            guids: with_text(before.guids, p.guid),
                        },
                    )
                }
            },
        }
    }
}

/// `start` with the first `n` projects of the source.
pub open spec fn add_projects(
    style: char,
    source: SlnView,
    folder: Seq<char>,
    relative: Seq<char>,
    first_guid: Seq<char>,
    start: Added,
    n: int,
) -> Option<Added>
    decreases n,
{
    if n <= 0 {
        Some(start)
    } else {
        match add_projects(style, source, folder, relative, first_guid, start, n - 1) {
            None => None,
            Some(before) => add_project(
                style,
                source,
                folder,
                relative,
                first_guid,
                before,
                source.projects[n - 1],
            ),
        }
    }
}

/// The lines whose first identifier is among `guids`.
pub open spec fn lines_about(lines: Seq<Seq<char>>, guids: Seq<Seq<char>>) -> Seq<Seq<char>>
    decreases lines.len(),
{
    if lines.len() == 0 {
        Seq::empty()
    } else {
        let rest = lines_about(lines.drop_last(), guids);
        match sln::first_guid_in(lines.last()) {
            Some(g) => if guids.contains(g) {
                rest.push(lines.last())
            } else {
                rest
            },
            None => rest,
        }
    }
}

/// The lines that nest one of `guids`, the first for each, and the identifiers that none of
/// the lines nests.
pub open spec fn nest_lines(lines: Seq<Seq<char>>, guids: Seq<Seq<char>>) -> (
    Seq<Seq<char>>,
    Seq<Seq<char>>,
)
    decreases lines.len(),
{
    if lines.len() == 0 {
        (Seq::empty(), guids)
    } else {
        let (taken, left) = nest_lines(lines.drop_last(), guids);
        match sln::first_guid_in(lines.last()) {
            Some(g) => if left.contains(g) {
                (taken.push(lines.last()), without_text(left, g))
            } else {
                (taken, left)
            },
            None => (taken, left),
        }
    }
}

/// The indentation of a section: that of its first line.
pub open spec fn indent_of(lines: Seq<Seq<char>>) -> Seq<char> {
    if lines.len() > 0 {
        text::leading_space(lines[0])
    } else {
        "        "@
    }
}

/// The lines that nest each of `guids` under a folder.
pub open spec fn lines_under(
    guids: Seq<Seq<char>>,
    indent: Seq<char>,
    folder_guid: Seq<char>,
) -> Seq<Seq<char>> {
    Seq::new(guids.len(), |i: int| indent + guids[i] + " = "@ + folder_guid)
}

/// The sections with other lines in section `i`.
pub open spec fn with_lines(
    sections: Seq<SectionView>,
    i: int,
    lines: Seq<Seq<char>>,
) -> Seq<SectionView> {
    sections.update(i, SectionView { lines, ..sections[i] })
}

/// The sections of the target with the configurations and the nesting of the projects that
/// were added.
pub open spec fn merge_sections(
    sections: Seq<SectionView>,
    source: SlnView,
    guids: Seq<Seq<char>>,
    folder_guid: Seq<char>,
) -> Result<Seq<SectionView>, SlnFault> {
    match section_named(sections, "ProjectConfigurationPlatforms"@) {
        None => Err(SlnFault::NoConfigurationSection),
        Some(c) => {
            let configured = with_lines(
                sections,
                c,
                sections[c].lines + lines_about(
                    lines_of_section(source.sections, "ProjectConfigurationPlatforms"@),
                    guids,
                ),
            );
            match section_named(configured, "NestedProjects"@) {
                None => Err(SlnFault::NoNestingSection),
                Some(n) => {
                    let (taken, left) = nest_lines(nesting_lines(source), guids);
                    Ok(
                        with_lines(
                            configured,
                            n,
                            configured[n].lines + taken + lines_under(
                                left,
                                indent_of(configured[n].lines),
                                folder_guid,
                            ),
                        ),
                    )
                },
            }
        },
    }
}

/// The directory of a file.
pub open spec fn directory_of(style: char, path: Seq<char>) -> Seq<char> {
    match paths::parent_path(style, path) {
        Some(dir) => dir,
        None => "."@,
    }
}

/// The name of the folder under which the projects of a source stand.
pub open spec fn source_folder(style: char, path: Seq<char>) -> Seq<char> {
    match paths::path_file_stem(style, path) {
        Some(stem) => stem,
        None => "UnknownFolder"@,
    }
}

/// The identifier of the folder with the name.
pub open spec fn folder_guid(name: Seq<char>) -> Seq<char> {
    "{"@ + named_uuid(DNS_NAMESPACE, name) + "}"@
}

/// The folder of a source as a project.
pub open spec fn folder_project(name: Seq<char>, first_guid: Seq<char>) -> ProjectView {
    ProjectView {
        first_guid,
        name,
        guid: folder_guid(name),
        path: name,
        section: Seq::empty(),
        is_file: false,
    }
}

/// `state` with one more solution merged in.
pub open spec fn merge_solution(
    style: char,
    first_guid: Seq<char>,
    path: Seq<char>,
    relative: Seq<char>,
    source: SlnView,
    state: MergeState,
) -> Result<MergeState, SlnFault> {
    let folder = source_folder(style, path);
    let start = Added {
        projects: if is_known(style, state.known, folder) {
            state.target.projects
        } else {
            state.target.projects.push(folder_project(folder, first_guid))
        },
        known: state.known,
        guids: Seq::empty(),
    };
    match add_projects(
        style,
        source,
        folder,
        relative,
        first_guid,
        start,
        source.projects.len() as int,
    ) {
        None => Err(SlnFault::CyclicFolders),
        Some(added) => match merge_sections(
            state.target.sections,
            source,
            added.guids,
            folder_guid(folder),
        ) {
            Err(e) => Err(e),
            Ok(sections) => Ok(
                MergeState {
                    target: SlnView { projects: added.projects, sections, ..state.target },
                    known: added.known,
                },
            ),
        },
    }
}

/// `state` with one more source merged in; a missing one is passed over.
pub open spec fn merge_one(
    style: char,
    target_dir: Seq<char>,
    first_guid: Seq<char>,
    source: SourceView,
    state: MergeState,
) -> Result<MergeState, SlnFault> {
    if source.parsed == Err::<SlnView, SlnFault>(SlnFault::Missing) {
        Ok(state)
    } else {
        match paths::relative_path(style, directory_of(style, source.path), target_dir) {
            None => Err(SlnFault::NoRelativePath(source.path)),
            Some(relative) => match source.parsed {
                Err(e) => Err(e),
                Ok(data) => merge_solution(style, first_guid, source.path, relative, data, state),
            },
        }
    }
}

/// `start` with the first `n` sources merged in; the first failure ends it.
pub open spec fn merge_all(
    style: char,
    target_dir: Seq<char>,
    first_guid: Seq<char>,
    sources: Seq<SourceView>,
    start: MergeState,
    n: int,
) -> Result<MergeState, SlnFault>
    decreases n,
{
    if n <= 0 {
        Ok(start)
    } else {
        match merge_all(style, target_dir, first_guid, sources, start, n - 1) {
            Err(e) => Err(e),
            Ok(state) => merge_one(style, target_dir, first_guid, sources[n - 1], state),
        }
    }
}

/// The path under which a project of the target is known.
pub open spec fn known_path(style: char, target: SlnView, p: ProjectView) -> Option<Seq<char>> {
    if p.is_file {
        Some(p.path)
    } else {
        folder_path(style, target, p.guid)
    }
}

/// The paths under which the first `n` projects of the target are known.
pub open spec fn known_paths(style: char, target: SlnView, n: int) -> Option<Seq<Seq<char>>>
    decreases n,
{
    if n <= 0 {
        Some(Seq::empty())
    } else {
        match (known_paths(style, target, n - 1), known_path(style, target, target.projects[n - 1])) {
            (Some(before), Some(path)) => Some(before.push(path)),
            _ => None,
        }
    }
}

/// The type identifier of folders: that of the first project at the path of the predefined
/// targets.
pub open spec fn folder_type(projects: Seq<ProjectView>) -> Option<Seq<char>>
    decreases projects.len(),
{
    if projects.len() == 0 {
        None
    } else {
        match folder_type(projects.drop_last()) {
            Some(g) => Some(g),
            None => if projects.last().path == "CMakePredefinedTargets"@ {
                Some(projects.last().first_guid)
            } else {
                None
            },
        }
    }
}

/// The target with all sources merged in, where `fresh` serves as the type of folders if the
/// target has none.
pub open spec fn merged(
    style: char,
    target_path: Seq<char>,
    target: SlnView,
    sources: Seq<SourceView>,
    fresh: Seq<char>,
) -> Result<SlnView, SlnFault> {
    match known_paths(style, target, target.projects.len() as int) {
        None => Err(SlnFault::CyclicFolders),
        Some(known) => match merge_all(
            style,
            directory_of(style, target_path),
            match folder_type(target.projects) {
                Some(g) => g,
                None => fresh,
            },
            sources,
            MergeState { target, known },
            sources.len() as int,
        ) {
            Err(e) => Err(e),
            Ok(state) => Ok(state.target),
        },
    }
}

/// Whether the path is among those known.
fn knows(style: &PathStyle, known: &Vec<String>, path: &str) -> (r: bool)
    ensures
        r == is_known(style@, text::texts(known@), path@),
{
    let ghost all = text::texts(known@);
    for k in 0..known.len()
        invariant
            all == text::texts(known@),
            forall|j: int|
                0 <= j < k ==> #[trigger] all[j] != path@ && !paths::same_path(
                    style@,
                    all[j],
                    path@,
                ),
    {
        assert(all[k as int] == known@[k as int]@);
        if paths::is_same(style, known[k].as_str(), path) {
            return true;
        }
    }
    false
}

/// Appends a project to a list.
fn push_project(list: &mut Vec<ProjectBlock>, p: ProjectBlock)
    ensures
        sln::project_views(final(list)@) == sln::project_views(old(list)@).push(p@),
{
    list.push(p);
    assert(sln::project_views(list@) =~= sln::project_views(old(list)@).push(p@));
}

/// The list without the text.
fn remove_text(list: &Vec<String>, s: &str) -> (r: Vec<String>)
    ensures
        text::texts(r@) == without_text(text::texts(list@), s@),
{
    let ghost all = text::texts(list@);
    let mut out: Vec<String> = Vec::new();
    assert(text::texts(out@) =~= Seq::empty());
    for i in 0..list.len()
        invariant
            all == text::texts(list@),
            text::texts(out@) == without_text(all.take(i as int), s@),
    {
        assert(all.take(i + 1).drop_last() =~= all.take(i as int));
        if !text::same_text(list[i].as_str(), s) {
            text::push_text(&mut out, list[i].clone());
        }
    }
    assert(all.take(all.len() as int) =~= all);
    out
}

/// The lines whose first identifier is among `guids`.
fn select_lines(lines: &Vec<String>, guids: &Vec<String>) -> (r: Vec<String>)
    ensures
        text::texts(r@) == lines_about(text::texts(lines@), text::texts(guids@)),
{
    let ghost all = text::texts(lines@);
    let mut out: Vec<String> = Vec::new();
    assert(text::texts(out@) =~= Seq::empty());
    for i in 0..lines.len()
        invariant
            all == text::texts(lines@),
            text::texts(out@) == lines_about(all.take(i as int), text::texts(guids@)),
    {
        assert(all.take(i + 1).drop_last() =~= all.take(i as int));
        if let Some(g) = sln::extract_first_guid_from_line(lines[i].as_str()) {
            if text::texts_contain(guids, g.as_str()) {
                text::push_text(&mut out, lines[i].clone());
            }
        }
    }
    assert(all.take(all.len() as int) =~= all);
    out
}

/// The lines that nest one of `guids`, and the identifiers that none of the lines nests.
fn split_nesting(lines: &Vec<String>, guids: &Vec<String>) -> (r: (Vec<String>, Vec<String>))
    ensures
        nest_lines(text::texts(lines@), text::texts(guids@)) == (
            text::texts(r.0@),
            text::texts(r.1@),
        ),
{
    let ghost all = text::texts(lines@);
    let mut taken: Vec<String> = Vec::new();
    let mut left = text::clone_texts(guids);
    assert(text::texts(taken@) =~= Seq::empty());
    for i in 0..lines.len()
        invariant
            all == text::texts(lines@),
            nest_lines(all.take(i as int), text::texts(guids@)) == (
                text::texts(taken@),
                text::texts(left@),
            ),
    {
        assert(all.take(i + 1).drop_last() =~= all.take(i as int));
        if let Some(g) = sln::extract_first_guid_from_line(lines[i].as_str()) {
            if text::texts_contain(&left, g.as_str()) {
                text::push_text(&mut taken, lines[i].clone());
                left = remove_text(&left, g.as_str());
            }
        }
    }
    assert(all.take(all.len() as int) =~= all);
    (taken, left)
}

/// The indentation of a section's lines.
pub fn detect_indent(lines: &Vec<String>) -> (r: String)
    ensures
        r@ == indent_of(text::texts(lines@)),
{
    if lines.len() > 0 {
        text::indent_of(lines[0].as_str())
    } else {
        "        ".to_owned()
    }
}

/// Appends to the lines of section `i`.
fn extend_section(sections: &mut Vec<GlobalSection>, i: usize, lines: &Vec<String>)
    requires
        i < old(sections)@.len(),
    ensures
        final(sections)@.len() == old(sections)@.len(),
        sln::section_views(final(sections)@) == with_lines(
            sln::section_views(old(sections)@),
            i as int,
            sln::section_views(old(sections)@)[i as int].lines + text::texts(lines@),
        ),
{
    let ghost views = sln::section_views(sections@);
    let ghost more = text::texts(lines@);
    let mut all = text::clone_texts(&sections[i].lines);
    assert(text::texts(all@) =~= views[i as int].lines + more.take(0));
    for k in 0..lines.len()
        invariant
            more == text::texts(lines@),
            text::texts(all@) == views[i as int].lines + more.take(k as int),
    {
        text::push_text(&mut all, lines[k].clone());
        assert(more.take(k + 1) =~= more.take(k as int).push(lines@[k as int]@));
        assert(text::texts(all@) =~= views[i as int].lines + more.take(k + 1));
    }
    assert(more.take(more.len() as int) =~= more);
    let section = GlobalSection {
        name: sections[i].name.clone(),
        header: sections[i].header.clone(),
        lines: all,
        footer: sections[i].footer.clone(),
    };
    proof {
        assert(section@ =~= (SectionView { lines: views[i as int].lines + more, ..views[i as int] }));
    }
    sections.set(i, section);
    assert(sln::section_views(sections@) =~= with_lines(
        views,
        i as int,
        views[i as int].lines + more,
    ));
}

/// The lines that nest each of `guids` under a folder.
fn write_nesting(guids: &Vec<String>, indent: &str, folder: &str) -> (r: Vec<String>)
    ensures
        text::texts(r@) == lines_under(text::texts(guids@), indent@, folder@),
{
    let ghost all = lines_under(text::texts(guids@), indent@, folder@);
    let mut out: Vec<String> = Vec::new();
    for i in 0..guids.len()
        invariant
            all == lines_under(text::texts(guids@), indent@, folder@),
            text::texts(out@) == all.take(i as int),
    {
        let mut line = indent.to_owned();
        line.append(guids[i].as_str());
        line.append(" = ");
        line.append(folder);
        assert(line@ =~= all[i as int]);
        text::push_text(&mut out, line);
        assert(all.take(i + 1) =~= all.take(i as int).push(all[i as int]));
    }
    assert(all.take(all.len() as int) =~= all);
    out
}

/// Adds the configurations and the nesting of the projects that were added to the sections of
/// the target.
fn extend_sections(
    sections: &mut Vec<GlobalSection>,
    source: &SlnData,
    guids: &Vec<String>,
    folder: &str,
) -> (r: Result<(), SlnError>)
    ensures
        match r {
            Ok(_) => merge_sections(
                sln::section_views(old(sections)@),
                source@,
                text::texts(guids@),
                folder@,
            ) == Ok::<Seq<SectionView>, SlnFault>(sln::section_views(final(sections)@)),
            Err(e) => merge_sections(
                sln::section_views(old(sections)@),
                source@,
                text::texts(guids@),
                folder@,
            ) == Err::<Seq<SectionView>, SlnFault>(e@),
        },
{
    let c = match find_section(sections, "ProjectConfigurationPlatforms") {
        Some(c) => c,
        None => {
            return Err(SlnError::NoConfigurationSection);
        },
    };
    let selected = match find_section(&source.global_sections, "ProjectConfigurationPlatforms") {
        Some(i) => select_lines(&source.global_sections[i].lines, guids),
        None => {
            let none: Vec<String> = Vec::new();
            assert(text::texts(none@) =~= lines_about(Seq::empty(), text::texts(guids@)));
            none
        },
    };
    extend_section(sections, c, &selected);
    let n = match find_section(sections, "NestedProjects") {
        Some(n) => n,
        None => {
            return Err(SlnError::NoNestingSection);
        },
    };
    let ghost configured = sln::section_views(sections@);
    let indent = detect_indent(&sections[n].lines);
    let nesting = read_nesting_lines(source);
    let (taken, left) = split_nesting(&nesting, guids);
    let under = write_nesting(&left, indent.as_str(), folder);
    extend_section(sections, n, &taken);
    let ghost half = sln::section_views(sections@);
    extend_section(sections, n, &under);
    proof {
        let (a, b) = nest_lines(nesting_lines(source@), text::texts(guids@));
        let whole = with_lines(
            configured,
            n as int,
            configured[n as int].lines + a + lines_under(
                b,
                indent_of(configured[n as int].lines),
                folder@,
            ),
        );
        assert(half[n as int].lines == configured[n as int].lines + a);
        assert(sln::section_views(sections@) =~= whole);
    }
    Ok(())
}

/// What adding the projects of one source has come to.
struct Adding {
    projects: Vec<ProjectBlock>,
    known: Vec<String>,
    guids: Vec<String>,
}

impl View for Adding {
    type V = Added;

    closed spec fn view(&self) -> Added {
        Added {
            projects: sln::project_views(self.projects@),
            known: text::texts(self.known@),
            guids: text::texts(self.guids@),
        }
    }
}

impl Adding {
    /// Adds a project under its path, unless that is known. Whether it was added is returned
    /// by what changed.
    fn add_unknown(&mut self, style: &PathStyle, path: String, project: ProjectBlock)
        ensures
            final(self)@ == (if is_known(style@, old(self)@.known, path@) {
                old(self)@
            } else {
                Added {
                    projects: old(self)@.projects.push(project@),
                    known: old(self)@.known.push(path@),
                    guids: with_text(old(self)@.guids, project@.guid),
                }
            }),
    {
        if !knows(style, &self.known, path.as_str()) {
            text::push_text(&mut self.known, path);
            if !text::texts_contain(&self.guids, project.guid.as_str()) {
                text::push_text(&mut self.guids, project.guid.clone());
            }
            push_project(&mut self.projects, project);
        }
    }

    /// Adds a project of the source. Returns whether its folders could be told.
    fn add_one(
        &mut self,
        style: &PathStyle,
        source: &SlnData,
        folder: &str,
        relative: &str,
        first_guid: &str,
        p: &ProjectBlock,
    ) -> (r: bool)
        ensures
            add_project(style@, source@, folder@, relative@, first_guid@, old(self)@, p@) == (if r {
                Some(final(self)@)
            } else {
                None
            }),
    {
        if p.is_file {
            if text::same_text(p.name.as_str(), "ALL_BUILD") {
                return true;
            }
            let path = paths::join(style, relative, p.project_path.as_str());
            let mut project = p.copy();
            project.project_path = path.clone();
            assert(project@ =~= (ProjectView { path: path@, ..p@ }));
            self.add_unknown(style, path, project);
            true
        } else {
            match get_folder_path(style, source, p.guid.as_str()) {
                None => false,
                Some(inner) => {
                    let path = paths::join(style, folder, inner.as_str());
                    let mut project = p.copy();
                    project.first_guid = first_guid.to_owned();
                    assert(project@ =~= (ProjectView { first_guid: first_guid@, ..p@ }));
                    self.add_unknown(style, path, project);
                    true
                },
            }
        }
    }
}

/// The directory of a file.
pub fn directory(style: &PathStyle, path: &str) -> (r: String)
    ensures
        r@ == directory_of(style@, path@),
{
    match paths::parent(style, path) {
        Some(dir) => dir,
        None => ".".to_owned(),
    }
}

/// What merging has come to.
struct Merging {
    target: SlnData,
    known: Vec<String>,
}

impl View for Merging {
    type V = MergeState;

    closed spec fn view(&self) -> MergeState {
        MergeState { target: self.target@, known: text::texts(self.known@) }
    }
}

/// Copies of the projects.
fn copy_projects(projects: &Vec<ProjectBlock>) -> (r: Vec<ProjectBlock>)
    ensures
        sln::project_views(r@) == sln::project_views(projects@),
{
    let ghost all = sln::project_views(projects@);
    let mut out: Vec<ProjectBlock> = Vec::new();
    for i in 0..projects.len()
        invariant
            all == sln::project_views(projects@),
            sln::project_views(out@) == all.take(i as int),
    {
        push_project(&mut out, projects[i].copy());
        assert(all.take(i + 1) =~= all.take(i as int).push(all[i as int]));
    }
    assert(all.take(all.len() as int) =~= all);
    out
}

impl Merging {
    /// Merges one more solution in.
    fn merge_data(
        &mut self,
        style: &PathStyle,
        first_guid: &str,
        path: &str,
        relative: &str,
        source: &SlnData,
    ) -> (r: Result<(), SlnError>)
        ensures
            match r {
                Ok(_) => merge_solution(
                    style@,
                    first_guid@,
                    path@,
                    relative@,
                    source@,
                    old(self)@,
                ) == Ok::<MergeState, SlnFault>(final(self)@),
                Err(e) => merge_solution(
                    style@,
                    first_guid@,
                    path@,
                    relative@,
                    source@,
                    old(self)@,
                ) == Err::<MergeState, SlnFault>(e@),
            },
    {
        let ghost before = self@;
        let folder = match paths::file_stem(style, path) {
            Some(stem) => stem,
            None => "UnknownFolder".to_owned(),
        };
        let mut guid = "{".to_owned();
        guid.append(name_uuid(DNS_NAMESPACE, folder.as_str()).as_str());
        guid.append("}");
        let mut adding = Adding {
            projects: copy_projects(&self.target.projects),
            known: text::clone_texts(&self.known),
            guids: Vec::new(),
        };
        if !knows(style, &self.known, folder.as_str()) {
            let project = ProjectBlock {
                first_guid: first_guid.to_owned(),
                name: folder.clone(),
                guid: guid.clone(),
                project_path: folder.clone(),
                project_section: Vec::new(),
                is_file: false,
            };
            assert(project@ =~= folder_project(folder@, first_guid@));
            push_project(&mut adding.projects, project);
        }
        let ghost start = adding@;
        assert(start.guids =~= Seq::empty());
        for i in 0..source.projects.len()
            invariant
                add_projects(
                    style@,
                    source@,
                    folder@,
                    relative@,
                    first_guid@,
                    start,
                    i as int,
                ) == Some(adding@),
                start.guids == Seq::<Seq<char>>::empty(),
                folder@ == source_folder(style@, path@),
                start == (Added {
                    projects: if is_known(style@, before.known, folder@) {
                        before.target.projects
                    } else {
                        before.target.projects.push(folder_project(folder@, first_guid@))
                    },
                    known: before.known,
                    guids: Seq::empty(),
                }),
                before == old(self)@,
        {
            let known = adding.add_one(
                style,
                source,
                folder.as_str(),
                relative,
                first_guid,
                &source.projects[i],
            );
            assert(source@.projects[i as int] == source.projects@[i as int]@);
            if !known {
                proof {
                    lemma_add_projects_fails(
                        style@,
                        source@,
                        folder@,
                        relative@,
                        first_guid@,
                        start,
                        i + 1,
                        source@.projects.len() as int,
                    );
                }
                return Err(SlnError::CyclicFolders);
            }
        }
        match extend_sections(
            &mut self.target.global_sections,
            source,
            &adding.guids,
            guid.as_str(),
        ) {
            Ok(_) => {},
            Err(e) => {
                return Err(e);
            },
        }
        self.target.projects = adding.projects;
        self.known = adding.known;
        Ok(())
    }

    /// Merges one more source in.
    fn merge_source(
        &mut self,
        style: &PathStyle,
        target_dir: &str,
        first_guid: &str,
        source: &SourceSolution,
    ) -> (r: Result<(), SlnError>)
        ensures
            match r {
                Ok(_) => merge_one(style@, target_dir@, first_guid@, source@, old(self)@) == Ok::<
                    MergeState,
                    SlnFault,
                >(final(self)@),
                Err(e) => merge_one(style@, target_dir@, first_guid@, source@, old(self)@) == Err::<
                    MergeState,
                    SlnFault,
                >(e@),
            },
    {
        if let Err(SlnError::Missing) = &source.parsed {
            return Ok(());
        }
        let dir = directory(style, source.path.as_str());
        let relative = match paths::diff(style, dir.as_str(), target_dir) {
            Some(relative) => relative,
            None => {
                return Err(SlnError::NoRelativePath(source.path.clone()));
            },
        };
        match &source.parsed {
            Ok(data) => self.merge_data(
                style,
                first_guid,
                source.path.as_str(),
                relative.as_str(),
                data,
            ),
            Err(e) => Err(sln::copy_error(e)),
        }
    }
}

proof fn lemma_add_projects_fails(
    style: char,
    source: SlnView,
    folder: Seq<char>,
    relative: Seq<char>,
    first_guid: Seq<char>,
    start: Added,
    k: int,
    n: int,
)
    requires
        0 <= k <= n,
        add_projects(style, source, folder, relative, first_guid, start, k) is None,
    ensures
        add_projects(style, source, folder, relative, first_guid, start, n) is None,
    decreases n - k,
{
    if k < n {
        lemma_add_projects_fails(style, source, folder, relative, first_guid, start, k, n - 1);
    }
}

proof fn lemma_merge_all_fails(
    style: char,
    target_dir: Seq<char>,
    first_guid: Seq<char>,
    sources: Seq<SourceView>,
    start: MergeState,
    k: int,
    n: int,
)
    requires
        0 <= k <= n,
        merge_all(style, target_dir, first_guid, sources, start, k) is Err,
    ensures
        merge_all(style, target_dir, first_guid, sources, start, n) == merge_all(
            style,
            target_dir,
            first_guid,
            sources,
            start,
            k,
        ),
    decreases n - k,
{
    if k < n {
        lemma_merge_all_fails(style, target_dir, first_guid, sources, start, k, n - 1);
    }
}

proof fn lemma_known_paths_fail(style: char, target: SlnView, k: int, n: int)
    requires
        0 <= k <= n,
        known_paths(style, target, k) is None,
    ensures
        known_paths(style, target, n) is None,
    decreases n - k,
{
    if k < n {
        lemma_known_paths_fail(style, target, k, n - 1);
    }
}

/// The paths under which the projects of the target are known.
fn list_known(style: &PathStyle, target: &SlnData) -> (r: Option<Vec<String>>)
    ensures
        match r {
            Some(known) => known_paths(style@, target@, target@.projects.len() as int) == Some(
                text::texts(known@),
            ),
            None => known_paths(style@, target@, target@.projects.len() as int) is None,
        },
{
    let mut known: Vec<String> = Vec::new();
    assert(text::texts(known@) =~= Seq::empty());
    for i in 0..target.projects.len()
        invariant
            known_paths(style@, target@, i as int) == Some(text::texts(known@)),
    {
        let p = &target.projects[i];
        assert(target@.projects[i as int] == p@);
        if p.is_file {
            text::push_text(&mut known, p.project_path.clone());
        } else {
            match get_folder_path(style, target, p.guid.as_str()) {
                Some(path) => {
                    text::push_text(&mut known, path);
                },
                None => {
                    proof {
                        lemma_known_paths_fail(
                            style@,
                            target@,
                            i + 1,
                            target@.projects.len() as int,
                        );
                    }
                    return None;
                },
            }
        }
    }
    Some(known)
}

proof fn lemma_folder_type_take(projects: Seq<ProjectView>, n: int)
    requires
        0 <= n <= projects.len(),
        folder_type(projects.take(n)) is Some,
    ensures
        folder_type(projects) == folder_type(projects.take(n)),
    decreases projects.len() - n,
{
    if n == projects.len() {
        assert(projects.take(n) =~= projects);
    } else {
        assert(projects.take(n + 1).drop_last() =~= projects.take(n));
        lemma_folder_type_take(projects, n + 1);
    }
}

/// The type identifier of folders in the target.
fn find_folder_type(projects: &Vec<ProjectBlock>) -> (r: Option<String>)
    ensures
        text::opt_text(r) == folder_type(sln::project_views(projects@)),
{
    let ghost views = sln::project_views(projects@);
    for i in 0..projects.len()
        invariant
            views == sln::project_views(projects@),
            folder_type(views.take(i as int)) is None,
    {
        assert(views.take(i + 1).drop_last() =~= views.take(i as int));
        if text::same_text(projects[i].project_path.as_str(), "CMakePredefinedTargets") {
            proof {
                lemma_folder_type_take(views, i + 1);
            }
            return Some(projects[i].first_guid.clone());
        }
    }
    assert(views.take(views.len() as int) =~= views);
    None
}

/// The target with all sources merged in; `fresh` serves as the type of folders if the target
/// has none.
pub fn merge_data(
    style: &PathStyle,
    target_path: &str,
    target: SlnData,
    sources: &Vec<SourceSolution>,
    fresh: &str,
) -> (r: Result<SlnData, SlnError>)
    ensures
        match r {
            Ok(data) => merged(
                style@,
                target_path@,
                target@,
                source_views(sources@),
                fresh@,
            ) == Ok::<SlnView, SlnFault>(data@),
            Err(e) => merged(
                style@,
                target_path@,
                target@,
                source_views(sources@),
                fresh@,
            ) == Err::<SlnView, SlnFault>(e@),
        },
{
    let ghost views = source_views(sources@);
    let known = match list_known(style, &target) {
        Some(known) => known,
        None => {
            return Err(SlnError::CyclicFolders);
        },
    };
    let first_guid = match find_folder_type(&target.projects) {
        Some(g) => g,
        None => fresh.to_owned(),
    };
    let target_dir = directory(style, target_path);
    let mut merging = Merging { target, known };
    let ghost start = merging@;
    for i in 0..sources.len()
        invariant
            views == source_views(sources@),
            merge_all(style@, target_dir@, first_guid@, views, start, i as int) == Ok::<
                MergeState,
                SlnFault,
            >(merging@),
            merged(style@, target_path@, target@, views, fresh@) == (match merge_all(
                style@,
                target_dir@,
                first_guid@,
                views,
                start,
                views.len() as int,
            ) {
                Err(e) => Err(e),
                Ok(state) => Ok(state.target),
            }),
    {
        assert(views[i as int] == sources@[i as int]@);
        match merging.merge_source(style, target_dir.as_str(), first_guid.as_str(), &sources[i]) {
            Ok(_) => {},
            Err(e) => {
                proof {
                    lemma_merge_all_fails(
                        style@,
                        target_dir@,
                        first_guid@,
                        views,
                        start,
                        i + 1,
                        views.len() as int,
                    );
                }
                return Err(e);
            },
        }
    }
    Ok(merging.target)
}

/// What is to be written to the target: the text of the merged solution, where it differs from
/// the present one.
pub open spec fn rewritten(
    r: Result<SlnView, SlnFault>,
    present: Seq<char>,
) -> Result<Option<Seq<char>>, SlnFault> {
    match r {
        Err(e) => Err(e),
        Ok(data) => if sln::sln_text(data) == present {
            Ok(None)
        } else {
            Ok(Some(sln::sln_text(data)))
        },
    }
}

/// Merges the sources into the target and returns the new text of the target, where it differs
/// from `present`. The type of new folders is that of the target's folders; if it has none, it
/// is drawn at random, and the result is the one for the identifier that was drawn.
pub fn merge_sln(
    style: &PathStyle,
    target_path: &str,
    target: SlnData,
    present: &str,
    sources: &Vec<SourceSolution>,
) -> (r: Result<Option<String>, SlnError>)
    ensures
        exists|fresh: Seq<char>|
            is_uuid(fresh, false) && rewritten(
                #[trigger] merged(
                    style@,
                    target_path@,
                    target@,
                    source_views(sources@),
                    fresh,
                ),
                present@,
            ) == (match r {
                Ok(content) => Ok(text::opt_text(content)),
                Err(e) => Err(e@),
            }),
{
    let fresh = random_uuid();
    let data = match merge_data(style, target_path, target, sources, fresh.as_str()) {
        Ok(data) => data,
        Err(e) => {
            assert(rewritten(
                merged(style@, target_path@, target@, source_views(sources@), fresh@),
                present@,
            ) == Err::<Option<Seq<char>>, SlnFault>(e@));
            return Err(e);
        },
    };
    let content = sln::build_sln_content(&data);
    if text::same_text(content.as_str(), present) {
        assert(rewritten(
            merged(style@, target_path@, target@, source_views(sources@), fresh@),
            present@,
        ) == Ok::<Option<Seq<char>>, SlnFault>(None));
        Ok(None)
    } else {
        assert(rewritten(
            merged(style@, target_path@, target@, source_views(sources@), fresh@),
            present@,
        ) == Ok::<Option<Seq<char>>, SlnFault>(Some(content@)));
        Ok(Some(content))
    }
}

/// The projects of the solution that count for its hash: files for the compiler's build tool
/// inside the solution's own directory.
pub open spec fn is_hashed(style: char, p: ProjectView) -> bool {
    p.is_file && paths::path_extension(style, p.path) == Some("vcxproj"@)
        && !paths::path_begins_with(style, p.path, ".."@)
}

/// The paths of the projects that count for the hash.
pub open spec fn hashed_paths(style: char, projects: Seq<ProjectView>) -> Seq<Seq<char>>
    decreases projects.len(),
{
    if projects.len() == 0 {
        Seq::empty()
    } else {
        let rest = hashed_paths(style, projects.drop_last());
        if is_hashed(style, projects.last()) {
            rest.push(projects.last().path)
        } else {
            rest
        }
    }
}

/// The paths of the projects whose content makes up the hash of a solution.
pub fn projects_to_hash(style: &PathStyle, solution: &SlnData) -> (r: Vec<String>)
    ensures
        text::texts(r@) == hashed_paths(style@, solution@.projects),
{
    let ghost all = solution@.projects;
    let mut out: Vec<String> = Vec::new();
    assert(text::texts(out@) =~= Seq::empty());
    for i in 0..solution.projects.len()
        invariant
            all == solution@.projects,
            text::texts(out@) == hashed_paths(style@, all.take(i as int)),
    {
        assert(all.take(i + 1).drop_last() =~= all.take(i as int));
        let p = &solution.projects[i];
        assert(all[i as int] == p@);
        let fits = match paths::extension(style, p.project_path.as_str()) {
            Some(e) => text::same_text(e.as_str(), "vcxproj"),
            None => false,
        };
        if p.is_file && fits && !paths::begins_with(style, p.project_path.as_str(), "..") {
            text::push_text(&mut out, p.project_path.clone());
        }
    }
    assert(all.take(all.len() as int) =~= all);
    out
}

/// `after` has the sections of `before`, each with the lines it had and perhaps more behind
/// them.
pub open spec fn sections_grow(before: Seq<SectionView>, after: Seq<SectionView>) -> bool {
    &&& after.len() == before.len()
    &&& forall|i: int|
        0 <= i < before.len() ==> {
            &&& (#[trigger] after[i]).name == before[i].name
            &&& after[i].header == before[i].header
            &&& after[i].footer == before[i].footer
            &&& before[i].lines.is_prefix_of(after[i].lines)
        }
}

/// `after` has everything that `before` has, in its place, and perhaps more behind it.
pub open spec fn solution_grows(before: SlnView, after: SlnView) -> bool {
    &&& after.header == before.header
    &&& after.newline == before.newline
    &&& before.projects.is_prefix_of(after.projects)
    &&& sections_grow(before.sections, after.sections)
}

/// Every path of `after` behind those of `before` is new: it is not known among the paths
/// that stand before it.
pub open spec fn paths_are_new(style: char, before: Seq<Seq<char>>, after: Seq<Seq<char>>) -> bool {
    &&& before.is_prefix_of(after)
    &&& forall|k: int|
        before.len() <= k < after.len() ==> !is_known(style, after.take(k), #[trigger] after[k])
}

proof fn lemma_paths_are_new_push(
    style: char,
    before: Seq<Seq<char>>,
    middle: Seq<Seq<char>>,
    path: Seq<char>,
)
    requires
        paths_are_new(style, before, middle),
        !is_known(style, middle, path),
    ensures
        paths_are_new(style, before, middle.push(path)),
{
    let after = middle.push(path);
    assert forall|k: int| before.len() <= k < after.len() implies !is_known(
        style,
        after.take(k),
        #[trigger] after[k],
    ) by {
        if k < middle.len() {
            assert(after.take(k) =~= middle.take(k));
            assert(after[k] == middle[k]);
        } else {
            assert(after.take(k) =~= middle);
        }
    }
}

pub proof fn lemma_add_projects(
    style: char,
    source: SlnView,
    folder: Seq<char>,
    relative: Seq<char>,
    first_guid: Seq<char>,
    start: Added,
    n: int,
)
    requires
        add_projects(style, source, folder, relative, first_guid, start, n) is Some,
    ensures
        ({
            let added = add_projects(style, source, folder, relative, first_guid, start, n)->0;
            &&& start.projects.is_prefix_of(added.projects)
            &&& paths_are_new(style, start.known, added.known)
            &&& added.projects.len() - start.projects.len() == added.known.len()
                - start.known.len()
        }),
    decreases n,
{
    if n > 0 {
        lemma_add_projects(style, source, folder, relative, first_guid, start, n - 1);
        let before = add_projects(style, source, folder, relative, first_guid, start, n - 1)->0;
        let p = source.projects[n - 1];
        if p.is_file {
            let path = paths::joined_path(style, relative, p.path);
            if p.name != "ALL_BUILD"@ && !is_known(style, before.known, path) {
                lemma_paths_are_new_push(style, start.known, before.known, path);
            }
        } else {
            let path = paths::joined_path(style, folder, folder_path(style, source, p.guid)->0);
            if !is_known(style, before.known, path) {
                lemma_paths_are_new_push(style, start.known, before.known, path);
            }
        }
    }
}

proof fn lemma_sections_grow_trans(a: Seq<SectionView>, b: Seq<SectionView>, c: Seq<SectionView>)
    requires
        sections_grow(a, b),
        sections_grow(b, c),
    ensures
        sections_grow(a, c),
{
    assert forall|i: int| 0 <= i < a.len() implies {
        &&& (#[trigger] c[i]).name == a[i].name
        &&& c[i].header == a[i].header
        &&& c[i].footer == a[i].footer
        &&& a[i].lines.is_prefix_of(c[i].lines)
    } by {
        assert(b[i].name == a[i].name);
        assert(a[i].lines =~= c[i].lines.subrange(0, a[i].lines.len() as int));
    }
}

proof fn lemma_with_lines_grows(sections: Seq<SectionView>, i: int, more: Seq<Seq<char>>)
    requires
        0 <= i < sections.len(),
    ensures
        sections_grow(sections, with_lines(sections, i, sections[i].lines + more)),
{
    let after = with_lines(sections, i, sections[i].lines + more);
    assert forall|k: int| 0 <= k < sections.len() implies {
        &&& (#[trigger] after[k]).name == sections[k].name
        &&& after[k].header == sections[k].header
        &&& after[k].footer == sections[k].footer
        &&& sections[k].lines.is_prefix_of(after[k].lines)
    } by {}
}

pub proof fn lemma_merge_sections(
    sections: Seq<SectionView>,
    source: SlnView,
    guids: Seq<Seq<char>>,
    folder: Seq<char>,
)
    requires
        merge_sections(sections, source, guids, folder) is Ok,
    ensures
        sections_grow(sections, merge_sections(sections, source, guids, folder)->Ok_0),
{
    lemma_section_named(sections, "ProjectConfigurationPlatforms"@);
    let c = section_named(sections, "ProjectConfigurationPlatforms"@)->0;
    let more = lines_about(
        lines_of_section(source.sections, "ProjectConfigurationPlatforms"@),
        guids,
    );
    lemma_with_lines_grows(sections, c, more);
    let configured = with_lines(sections, c, sections[c].lines + more);
    lemma_section_named(configured, "NestedProjects"@);
    let n = section_named(configured, "NestedProjects"@)->0;
    let (taken, left) = nest_lines(nesting_lines(source), guids);
    let under = lines_under(left, indent_of(configured[n].lines), folder);
    assert(configured[n].lines + taken + under =~= configured[n].lines + (taken + under));
    lemma_with_lines_grows(configured, n, taken + under);
    lemma_sections_grow_trans(
        sections,
        configured,
        merge_sections(sections, source, guids, folder)->Ok_0,
    );
}

proof fn lemma_merge_all_grows(
    style: char,
    target_dir: Seq<char>,
    first_guid: Seq<char>,
    sources: Seq<SourceView>,
    start: MergeState,
    n: int,
)
    requires
        merge_all(style, target_dir, first_guid, sources, start, n) is Ok,
    ensures
        ({
            let end = merge_all(style, target_dir, first_guid, sources, start, n)->Ok_0;
            &&& solution_grows(start.target, end.target)
            &&& paths_are_new(style, start.known, end.known)
        }),
    decreases n,
{
    if n > 0 {
        lemma_merge_all_grows(style, target_dir, first_guid, sources, start, n - 1);
        let state = merge_all(style, target_dir, first_guid, sources, start, n - 1)->Ok_0;
        let source = sources[n - 1];
        if source.parsed is Ok {
            let data = source.parsed->Ok_0;
            let relative = paths::relative_path(
                style,
                directory_of(style, source.path),
                target_dir,
            )->0;
            let folder = source_folder(style, source.path);
            let first = Added {
                projects: if is_known(style, state.known, folder) {
                    state.target.projects
                } else {
                    state.target.projects.push(folder_project(folder, first_guid))
                },
                known: state.known,
                guids: Seq::empty(),
            };
            let count = data.projects.len() as int;
            lemma_add_projects(style, data, folder, relative, first_guid, first, count);
            let added = add_projects(style, data, folder, relative, first_guid, first, count)->0;
            lemma_merge_sections(
                state.target.sections,
                data,
                added.guids,
                folder_guid(folder),
            );
            let end = merge_all(style, target_dir, first_guid, sources, start, n)->Ok_0;
            lemma_sections_grow_trans(
                start.target.sections,
                state.target.sections,
                end.target.sections,
            );
            assert(start.target.projects =~= end.target.projects.subrange(
                0,
                start.target.projects.len() as int,
            ));
            assert(start.known =~= end.known.subrange(0, start.known.len() as int));
            assert forall|k: int| start.known.len() <= k < end.known.len() implies !is_known(
                style,
                end.known.take(k),
                #[trigger] end.known[k],
            ) by {
                if k < state.known.len() {
                    assert(end.known.take(k) =~= state.known.take(k));
                    assert(end.known[k] == state.known[k]);
                }
            }
        }
    } else {
        assert(start.known =~= start.known.subrange(0, start.known.len() as int));
    }
}

/// Merging takes nothing away: the target keeps its header, its projects in their places, and
/// the lines of its sections, and gets the new ones behind them.
pub proof fn law_merging_keeps_the_target(
    style: char,
    target_path: Seq<char>,
    target: SlnView,
    sources: Seq<SourceView>,
    fresh: Seq<char>,
)
    ensures
        merged(style, target_path, target, sources, fresh) matches Ok(after) ==> solution_grows(
            target,
            after,
        ),
{
    if merged(style, target_path, target, sources, fresh) is Ok {
        let known = known_paths(style, target, target.projects.len() as int)->0;
        lemma_merge_all_grows(
            style,
            directory_of(style, target_path),
            match folder_type(target.projects) {
                Some(g) => g,
                None => fresh,
            },
            sources,
            MergeState { target, known },
            sources.len() as int,
        );
    }
}

/// Merging adds no project twice: each path that it adds is new among those before it.
pub proof fn law_merging_adds_no_path_twice(
    style: char,
    target_dir: Seq<char>,
    first_guid: Seq<char>,
    sources: Seq<SourceView>,
    start: MergeState,
    n: int,
)
    ensures
        merge_all(style, target_dir, first_guid, sources, start, n) matches Ok(end)
            ==> paths_are_new(style, start.known, end.known),
{
    if merge_all(style, target_dir, first_guid, sources, start, n) is Ok {
        lemma_merge_all_grows(style, target_dir, first_guid, sources, start, n);
    }
}

/// Sources that are missing change nothing.
pub proof fn law_missing_sources_change_nothing(
    style: char,
    target_path: Seq<char>,
    target: SlnView,
    sources: Seq<SourceView>,
    fresh: Seq<char>,
)
    requires
        forall|i: int|
            0 <= i < sources.len() ==> (#[trigger] sources[i]).parsed == Err::<SlnView, SlnFault>(
                SlnFault::Missing,
            ),
    ensures
        merged(style, target_path, target, sources, fresh) matches Ok(after) ==> after == target,
{
    if merged(style, target_path, target, sources, fresh) is Ok {
        let known = known_paths(style, target, target.projects.len() as int)->0;
        lemma_missing_sources(
            style,
            directory_of(style, target_path),
            match folder_type(target.projects) {
                Some(g) => g,
                None => fresh,
            },
            sources,
            MergeState { target, known },
            sources.len() as int,
        );
    }
}

proof fn lemma_missing_sources(
    style: char,
    target_dir: Seq<char>,
    first_guid: Seq<char>,
    sources: Seq<SourceView>,
    start: MergeState,
    n: int,
)
    requires
        n <= sources.len(),
        forall|i: int|
            0 <= i < sources.len() ==> (#[trigger] sources[i]).parsed == Err::<SlnView, SlnFault>(
                SlnFault::Missing,
            ),
    ensures
        merge_all(style, target_dir, first_guid, sources, start, n) == Ok::<MergeState, SlnFault>(
            start,
        ),
    decreases n,
{
    if n > 0 {
        lemma_missing_sources(style, target_dir, first_guid, sources, start, n - 1);
    }
}

/// The identifier `steps` parents above `guid`.
pub open spec fn ancestor(lines: Seq<Seq<char>>, guid: Seq<char>, steps: nat) -> Option<Seq<char>>
    decreases steps,
{
    if steps == 0 {
        Some(guid)
    } else {
        match ancestor(lines, guid, (steps - 1) as nat) {
            Some(g) => parent_of(lines, g),
            None => None,
        }
    }
}

proof fn lemma_ancestor_shift(lines: Seq<Seq<char>>, guid: Seq<char>, p: Seq<char>, steps: nat)
    requires
        parent_of(lines, guid) == Some(p),
    ensures
        ancestor(lines, guid, steps + 1) == ancestor(lines, p, steps),
    decreases steps,
{
    if steps > 0 {
        lemma_ancestor_shift(lines, guid, p, (steps - 1) as nat);
    } else {
        assert(ancestor(lines, guid, 0) == Some(guid));
        assert(ancestor(lines, guid, 1) == Some(p));
    }
}

proof fn lemma_chain_is_ancestry(
    projects: Seq<ProjectView>,
    lines: Seq<Seq<char>>,
    guid: Seq<char>,
    depth: nat,
)
    ensures
        folder_chain(projects, lines, guid, depth) is None <==> ancestor(lines, guid, depth + 1)
            is Some,
    decreases depth,
{
    match parent_of(lines, guid) {
        None => {
            assert(ancestor(lines, guid, 0) == Some(guid));
            lemma_ancestor_ends(lines, guid, 1, depth + 1);
        },
        Some(p) => {
            lemma_ancestor_shift(lines, guid, p, depth);
            if depth > 0 {
                lemma_chain_is_ancestry(projects, lines, p, (depth - 1) as nat);
            }
        },
    }
}

proof fn lemma_ancestor_ends(lines: Seq<Seq<char>>, guid: Seq<char>, k: nat, steps: nat)
    requires
        k <= steps,
        ancestor(lines, guid, k) is None,
    ensures
        ancestor(lines, guid, steps) is None,
    decreases steps,
{
    if k < steps {
        lemma_ancestor_ends(lines, guid, k, (steps - 1) as nat);
    }
}

/// The first part of the pair in each line.
pub open spec fn children(lines: Seq<Seq<char>>) -> Set<Seq<char>>
    decreases lines.len(),
{
    if lines.len() == 0 {
        Set::empty()
    } else {
        match nested_pair(lines.last()) {
            Some((c, _)) => children(lines.drop_last()).insert(c),
            None => children(lines.drop_last()),
        }
    }
}

proof fn lemma_children(lines: Seq<Seq<char>>)
    ensures
        children(lines).finite(),
        children(lines).len() <= lines.len(),
        forall|c: Seq<char>| (#[trigger] parent_of(lines, c)) is Some ==> children(lines).contains(c),
    decreases lines.len(),
{
    if lines.len() > 0 {
        let rest = lines.drop_last();
        lemma_children(rest);
        assert forall|c: Seq<char>| (#[trigger] parent_of(lines, c)) is Some implies children(
            lines,
        ).contains(c) by {
            if parent_of(rest, c) is Some {
                assert(children(rest).contains(c));
            }
        }
    }
}

proof fn lemma_repeat_never_ends(
    lines: Seq<Seq<char>>,
    guid: Seq<char>,
    i: nat,
    j: nat,
    steps: nat,
)
    requires
        i < j,
        ancestor(lines, guid, i) == ancestor(lines, guid, j),
        ancestor(lines, guid, j) is Some,
    ensures
        ancestor(lines, guid, steps) is Some,
    decreases steps,
{
    if steps <= j {
        if ancestor(lines, guid, steps) is None {
            lemma_ancestor_ends(lines, guid, steps, j);
        }
    } else {
        let back = (steps - (j - i)) as nat;
        lemma_repeat_never_ends(lines, guid, i, j, back);
        lemma_ancestor_repeats(lines, guid, i, j, back);
    }
}

proof fn lemma_ancestor_repeats(
    lines: Seq<Seq<char>>,
    guid: Seq<char>,
    i: nat,
    j: nat,
    steps: nat,
)
    requires
        i < j,
        i <= steps,
        ancestor(lines, guid, i) == ancestor(lines, guid, j),
    ensures
        ancestor(lines, guid, steps) == ancestor(lines, guid, (steps + (j - i)) as nat),
    decreases steps,
{
    if steps > i {
        lemma_ancestor_repeats(lines, guid, i, j, (steps - 1) as nat);
    }
}

/// Folders nested deeper than there are nesting lines contain one another: whatever the depth
/// allowed, the way to the outermost folder does not end.
pub proof fn law_deep_folders_are_cyclic(
    projects: Seq<ProjectView>,
    lines: Seq<Seq<char>>,
    guid: Seq<char>,
    depth: nat,
)
    requires
        folder_chain(projects, lines, guid, lines.len()) is None,
    ensures
        folder_chain(projects, lines, guid, depth) is None,
{
    let n = lines.len();
    lemma_chain_is_ancestry(projects, lines, guid, n);
    lemma_chain_is_ancestry(projects, lines, guid, depth);
    lemma_children(lines);
    let way = Seq::new(n + 1, |k: int| ancestor(lines, guid, k as nat)->0);
    assert forall|k: int| 0 <= k < way.len() implies children(lines).contains(#[trigger] way[k])
        && ancestor(lines, guid, k as nat) == Some(way[k]) by {
        if ancestor(lines, guid, (k + 1) as nat) is None {
            lemma_ancestor_ends(lines, guid, (k + 1) as nat, n + 1);
        }
    }
    if way.no_duplicates() {
        way.unique_seq_to_set();
        assert(way.to_set().subset_of(children(lines)));
        vstd::set_lib::lemma_len_subset(way.to_set(), children(lines));
        assert(false);
    }
    let (i, j) = choose|i: int, j: int|
        0 <= i < way.len() && 0 <= j < way.len() && i != j && way[i] == way[j];
    let low = if i < j {
        i
    } else {
        j
    };
    let high = if i < j {
        j
    } else {
        i
    };
    assert(way[low] == way[high]);
    lemma_repeat_never_ends(lines, guid, low as nat, high as nat, depth + 1);
}

/// The first merging left nothing of a source out: what is no file under a known path is a folder
/// under one, or the project that builds everything.
pub open spec fn is_covered(
    style: char,
    known: Seq<Seq<char>>,
    source: SlnView,
    folder: Seq<char>,
    relative: Seq<char>,
    p: ProjectView,
) -> bool {
    if p.is_file {
        p.name == "ALL_BUILD"@ || is_known(
            style,
            known,
            paths::joined_path(style, relative, p.path),
        )
    } else {
        folder_path(style, source, p.guid) matches Some(inner) && is_known(
            style,
            known,
            paths::joined_path(style, folder, inner),
        )
    }
}

/// Every project of the source is covered.
pub open spec fn is_source_covered(
    style: char,
    target_dir: Seq<char>,
    known: Seq<Seq<char>>,
    source: SourceView,
) -> bool {
    source.parsed matches Ok(data) ==> (paths::relative_path(
        style,
        directory_of(style, source.path),
        target_dir,
    ) matches Some(relative) && forall|j: int|
        0 <= j < data.projects.len() ==> is_covered(
            style,
            known,
            data,
            source_folder(style, source.path),
            relative,
            #[trigger] data.projects[j],
        ))
}

pub proof fn lemma_known_in_more(
    style: char,
    known: Seq<Seq<char>>,
    more: Seq<Seq<char>>,
    path: Seq<char>,
)
    requires
        is_known(style, known, path),
        forall|k: int| 0 <= k < known.len() ==> more.contains(#[trigger] known[k]),
    ensures
        is_known(style, more, path),
{
    let k = choose|k: int|
        0 <= k < known.len() && (#[trigger] known[k] == path || paths::same_path(
            style,
            known[k],
            path,
        ));
    let m = more.index_of(known[k]);
    assert(more.contains(known[k]));
    assert(more[m] == known[k]);
}

proof fn lemma_covered_in_more(
    style: char,
    known: Seq<Seq<char>>,
    more: Seq<Seq<char>>,
    source: SlnView,
    folder: Seq<char>,
    relative: Seq<char>,
    p: ProjectView,
)
    requires
        is_covered(style, known, source, folder, relative, p),
        forall|k: int| 0 <= k < known.len() ==> more.contains(#[trigger] known[k]),
    ensures
        is_covered(style, more, source, folder, relative, p),
{
    if p.is_file {
        if p.name != "ALL_BUILD"@ {
            lemma_known_in_more(style, known, more, paths::joined_path(style, relative, p.path));
        }
    } else {
        let inner = folder_path(style, source, p.guid)->0;
        lemma_known_in_more(style, known, more, paths::joined_path(style, folder, inner));
    }
}

pub proof fn lemma_prefix_is_held(known: Seq<Seq<char>>, more: Seq<Seq<char>>)
    requires
        known.is_prefix_of(more),
    ensures
        forall|k: int| 0 <= k < known.len() ==> more.contains(#[trigger] known[k]),
{
    assert forall|k: int| 0 <= k < known.len() implies more.contains(#[trigger] known[k]) by {
        assert(more[k] == known[k]) by {
            assert(known == more.subrange(0, known.len() as int));
        }
    }
}

pub proof fn lemma_added_projects_are_covered(
    style: char,
    source: SlnView,
    folder: Seq<char>,
    relative: Seq<char>,
    first_guid: Seq<char>,
    start: Added,
    n: int,
)
    requires
        n <= source.projects.len(),
        add_projects(style, source, folder, relative, first_guid, start, n) is Some,
    ensures
        ({
            let added = add_projects(style, source, folder, relative, first_guid, start, n)->0;
            forall|j: int|
                0 <= j < n ==> is_covered(
                    style,
                    added.known,
                    source,
                    folder,
                    relative,
                    #[trigger] source.projects[j],
                )
        }),
    decreases n,
{
    if n > 0 {
        lemma_added_projects_are_covered(
            style,
            source,
            folder,
            relative,
            first_guid,
            start,
            n - 1,
        );
        let before = add_projects(style, source, folder, relative, first_guid, start, n - 1)->0;
        let after = add_projects(style, source, folder, relative, first_guid, start, n)->0;
        assert(before.known.is_prefix_of(after.known)) by {
            assert(before.known =~= after.known.subrange(0, before.known.len() as int));
        }
        lemma_prefix_is_held(before.known, after.known);
        if after.known.len() > before.known.len() {
            assert(after.known[before.known.len() as int] == after.known.last());
        }
        assert forall|j: int| 0 <= j < n implies is_covered(
            style,
            after.known,
            source,
            folder,
            relative,
            #[trigger] source.projects[j],
        ) by {
            if j < n - 1 {
                lemma_covered_in_more(
                    style,
                    before.known,
                    after.known,
                    source,
                    folder,
                    relative,
                    source.projects[j],
                );
            }
        }
    }
}

pub proof fn lemma_section_named_by_names(
    a: Seq<SectionView>,
    b: Seq<SectionView>,
    name: Seq<char>,
)
    requires
        a.len() == b.len(),
        forall|i: int| 0 <= i < a.len() ==> (#[trigger] a[i]).name == b[i].name,
    ensures
        section_named(a, name) == section_named(b, name),
    decreases a.len(),
{
    if a.len() > 0 {
        let x = a.drop_last();
        let y = b.drop_last();
        assert forall|i: int| 0 <= i < x.len() implies (#[trigger] x[i]).name == y[i].name by {
            assert(x[i] == a[i]);
        }
        assert(a[a.len() - 1].name == b[a.len() - 1].name);
        lemma_section_named_by_names(x, y, name);
    }
}

spec fn has_sections(sections: Seq<SectionView>) -> bool {
    &&& section_named(sections, "ProjectConfigurationPlatforms"@) is Some
    &&& section_named(sections, "NestedProjects"@) is Some
}

proof fn lemma_merged_sources_are_covered(
    style: char,
    target_dir: Seq<char>,
    first_guid: Seq<char>,
    sources: Seq<SourceView>,
    start: MergeState,
    n: int,
)
    requires
        n <= sources.len(),
        merge_all(style, target_dir, first_guid, sources, start, n) is Ok,
    ensures
        ({
            let end = merge_all(style, target_dir, first_guid, sources, start, n)->Ok_0;
            &&& forall|i: int|
                0 <= i < n ==> is_source_covered(
                    style,
                    target_dir,
                    end.known,
                    #[trigger] sources[i],
                )
            &&& forall|i: int|
                0 <= i < n ==> (#[trigger] sources[i]).parsed is Ok || sources[i].parsed == Err::<
                    SlnView,
                    SlnFault,
                >(SlnFault::Missing)
            &&& (exists|i: int| 0 <= i < n && (#[trigger] sources[i]).parsed is Ok)
                ==> has_sections(end.target.sections)
        }),
    decreases n,
{
    if n > 0 {
        lemma_merged_sources_are_covered(style, target_dir, first_guid, sources, start, n - 1);
        let state = merge_all(style, target_dir, first_guid, sources, start, n - 1)->Ok_0;
        let end = merge_all(style, target_dir, first_guid, sources, start, n)->Ok_0;
        let source = sources[n - 1];
        if source.parsed is Ok {
            let data = source.parsed->Ok_0;
            let relative = paths::relative_path(
                style,
                directory_of(style, source.path),
                target_dir,
            )->0;
            let folder = source_folder(style, source.path);
            let first = Added {
                projects: if is_known(style, state.known, folder) {
                    state.target.projects
                } else {
                    state.target.projects.push(folder_project(folder, first_guid))
                },
                known: state.known,
                guids: Seq::empty(),
            };
            let count = data.projects.len() as int;
            lemma_add_projects(style, data, folder, relative, first_guid, first, count);
            lemma_added_projects_are_covered(
                style,
                data,
                folder,
                relative,
                first_guid,
                first,
                count,
            );
            lemma_prefix_is_held(state.known, end.known);
            let added = add_projects(style, data, folder, relative, first_guid, first, count)->0;
            let sections = state.target.sections;
            let c = section_named(sections, "ProjectConfigurationPlatforms"@)->0;
            lemma_section_named(sections, "ProjectConfigurationPlatforms"@);
            let configured = with_lines(
                sections,
                c,
                sections[c].lines + lines_about(
                    lines_of_section(data.sections, "ProjectConfigurationPlatforms"@),
                    added.guids,
                ),
            );
            lemma_section_named(configured, "NestedProjects"@);
            lemma_section_named_by_names(
                sections,
                configured,
                "ProjectConfigurationPlatforms"@,
            );
            lemma_section_named_by_names(
                configured,
                end.target.sections,
                "ProjectConfigurationPlatforms"@,
            );
            lemma_section_named_by_names(
                configured,
                end.target.sections,
                "NestedProjects"@,
            );
        } else {
            assert(end == state);
            lemma_prefix_is_held_by_itself(state.known);
        }
        assert forall|i: int| 0 <= i < n implies is_source_covered(
            style,
            target_dir,
            end.known,
            #[trigger] sources[i],
        ) by {
            if i < n - 1 {
                let other = sources[i];
                assert(is_source_covered(style, target_dir, state.known, other));
                if let Ok(data) = other.parsed {
                    let relative = paths::relative_path(
                        style,
                        directory_of(style, other.path),
                        target_dir,
                    )->0;
                    assert forall|j: int| 0 <= j < data.projects.len() implies is_covered(
                        style,
                        end.known,
                        data,
                        source_folder(style, other.path),
                        relative,
                        #[trigger] data.projects[j],
                    ) by {
                        lemma_covered_in_more(
                            style,
                            state.known,
                            end.known,
                            data,
                            source_folder(style, other.path),
                            relative,
                            data.projects[j],
                        );
                    }
                }
            }
        }
    }
}

proof fn lemma_prefix_is_held_by_itself(known: Seq<Seq<char>>)
    ensures
        forall|k: int| 0 <= k < known.len() ==> known.contains(#[trigger] known[k]),
{
}

proof fn lemma_covered_source_adds_nothing(
    style: char,
    source: SlnView,
    folder: Seq<char>,
    relative: Seq<char>,
    first_guid: Seq<char>,
    start: Added,
    n: int,
)
    requires
        n <= source.projects.len(),
        forall|j: int|
            0 <= j < source.projects.len() ==> is_covered(
                style,
                start.known,
                source,
                folder,
                relative,
                #[trigger] source.projects[j],
            ),
    ensures
        add_projects(style, source, folder, relative, first_guid, start, n) == Some(start),
    decreases n,
{
    if n > 0 {
        lemma_covered_source_adds_nothing(
            style,
            source,
            folder,
            relative,
            first_guid,
            start,
            n - 1,
        );
        assert(is_covered(
            style,
            start.known,
            source,
            folder,
            relative,
            source.projects[n - 1],
        ));
    }
}

proof fn lemma_nothing_about_nothing(lines: Seq<Seq<char>>)
    ensures
        lines_about(lines, Seq::empty()) == Seq::<Seq<char>>::empty(),
        nest_lines(lines, Seq::empty()) == (Seq::<Seq<char>>::empty(), Seq::<Seq<char>>::empty()),
    decreases lines.len(),
{
    if lines.len() > 0 {
        lemma_nothing_about_nothing(lines.drop_last());
    }
}

proof fn lemma_no_projects_no_lines(
    sections: Seq<SectionView>,
    source: SlnView,
    folder_guid: Seq<char>,
)
    requires
        has_sections(sections),
    ensures
        merge_sections(sections, source, Seq::empty(), folder_guid) == Ok::<
            Seq<SectionView>,
            SlnFault,
        >(sections),
{
    let c = section_named(sections, "ProjectConfigurationPlatforms"@)->0;
    let about = lines_of_section(source.sections, "ProjectConfigurationPlatforms"@);
    lemma_section_named(sections, "ProjectConfigurationPlatforms"@);
    lemma_section_named(sections, "NestedProjects"@);
    lemma_nothing_about_nothing(about);
    lemma_nothing_about_nothing(nesting_lines(source));
    let none = Seq::<Seq<char>>::empty();
    assert(sections[c].lines + none =~= sections[c].lines);
    let configured = with_lines(sections, c, sections[c].lines + lines_about(about, none));
    assert(configured =~= sections);
    let n = section_named(sections, "NestedProjects"@)->0;
    let under = lines_under(none, indent_of(sections[n].lines), folder_guid);
    assert(under =~= none);
    assert(sections[n].lines + none + under =~= sections[n].lines);
    assert(with_lines(sections, n, sections[n].lines + none + under) =~= sections);
}

proof fn lemma_covered_sources_change_nothing(
    style: char,
    target_dir: Seq<char>,
    first_guid: Seq<char>,
    sources: Seq<SourceView>,
    start: MergeState,
    n: int,
)
    requires
        n <= sources.len(),
        forall|i: int|
            0 <= i < sources.len() ==> is_source_covered(
                style,
                target_dir,
                start.known,
                #[trigger] sources[i],
            ),
        forall|i: int|
            0 <= i < sources.len() ==> (#[trigger] sources[i]).parsed is Ok || sources[i].parsed
                == Err::<SlnView, SlnFault>(SlnFault::Missing),
        forall|i: int|
            0 <= i < sources.len() && (#[trigger] sources[i]).parsed is Ok ==> is_known(
                style,
                start.known,
                source_folder(style, sources[i].path),
            ) && has_sections(start.target.sections),
    ensures
        merge_all(style, target_dir, first_guid, sources, start, n) == Ok::<MergeState, SlnFault>(
            start,
        ),
    decreases n,
{
    if n > 0 {
        lemma_covered_sources_change_nothing(
            style,
            target_dir,
            first_guid,
            sources,
            start,
            n - 1,
        );
        let source = sources[n - 1];
        assert(is_source_covered(style, target_dir, start.known, source));
        if let Ok(data) = source.parsed {
            let relative = paths::relative_path(
                style,
                directory_of(style, source.path),
                target_dir,
            )->0;
            let folder = source_folder(style, source.path);
            let first = Added {
                projects: start.target.projects,
                known: start.known,
                guids: Seq::empty(),
            };
            lemma_covered_source_adds_nothing(
                style,
                data,
                folder,
                relative,
                first_guid,
                first,
                data.projects.len() as int,
            );
            lemma_no_projects_no_lines(start.target.sections, data, folder_guid(folder));
        }
    }
}

pub proof fn lemma_file_paths_are_known(style: char, target: SlnView, n: int, j: int)
    requires
        0 <= j < n <= target.projects.len(),
        target.projects[j].is_file,
        known_paths(style, target, n) is Some,
    ensures
        known_paths(style, target, n)->0.contains(target.projects[j].path),
    decreases n,
{
    let all = known_paths(style, target, n)->0;
    let before = known_paths(style, target, n - 1)->0;
    if j == n - 1 {
        assert(all.last() == target.projects[j].path);
        assert(all[all.len() - 1] == all.last());
    } else {
        lemma_file_paths_are_known(style, target, n - 1, j);
        let k = before.index_of(target.projects[j].path);
        assert(all[k] == before[k]);
    }
}

/// The path is that of a file of the solution.
pub open spec fn is_file_path(solution: SlnView, path: Seq<char>) -> bool {
    exists|j: int|
        0 <= j < solution.projects.len() && (#[trigger] solution.projects[j]).is_file
            && solution.projects[j].path == path
}

/// Merging the same solutions a second time changes nothing, where the folders of the merged
/// solution are found under the paths that they were merged under, and the folders of the sources
/// under their names.
pub proof fn lemma_merging_again_changes_nothing(
    style: char,
    target_path: Seq<char>,
    target: SlnView,
    sources: Seq<SourceView>,
    first_type: Seq<char>,
    known: Seq<Seq<char>>,
    end: MergeState,
    found: Seq<Seq<char>>,
    fresh: Seq<char>,
)
    requires
        known_paths(style, target, target.projects.len() as int) == Some(known),
        merge_all(
            style,
            directory_of(style, target_path),
            first_type,
            sources,
            MergeState { target, known },
            sources.len() as int,
        ) == Ok::<MergeState, SlnFault>(end),
        known_paths(style, end.target, end.target.projects.len() as int) == Some(found),
        forall|k: int|
            0 <= k < end.known.len() ==> is_file_path(end.target, #[trigger] end.known[k])
                || found.contains(end.known[k]),
        forall|i: int|
            0 <= i < sources.len() && (#[trigger] sources[i]).parsed is Ok ==> is_known(
                style,
                found,
                source_folder(style, sources[i].path),
            ),
    ensures
        merged(style, target_path, end.target, sources, fresh) == Ok::<SlnView, SlnFault>(
            end.target,
        ),
{
    let dir = directory_of(style, target_path);
    let n = sources.len() as int;
    lemma_merged_sources_are_covered(
        style,
        dir,
        first_type,
        sources,
        MergeState { target, known },
        n,
    );
    assert forall|k: int| 0 <= k < end.known.len() implies found.contains(
        #[trigger] end.known[k],
    ) by {
        if is_file_path(end.target, end.known[k]) {
            let j = choose|j: int|
                0 <= j < end.target.projects.len() && (#[trigger] end.target.projects[j]).is_file
                    && end.target.projects[j].path == end.known[k];
            lemma_file_paths_are_known(
                style,
                end.target,
                end.target.projects.len() as int,
                j,
            );
        }
    }
    assert forall|i: int| 0 <= i < sources.len() implies is_source_covered(
        style,
        dir,
        found,
        #[trigger] sources[i],
    ) by {
        let source = sources[i];
        assert(is_source_covered(style, dir, end.known, source));
        if let Ok(data) = source.parsed {
            let relative = paths::relative_path(style, directory_of(style, source.path), dir)->0;
            let folder = source_folder(style, source.path);
            assert forall|j: int| 0 <= j < data.projects.len() implies is_covered(
                style,
                found,
                data,
                folder,
                relative,
                #[trigger] data.projects[j],
            ) by {
                lemma_covered_in_more(
                    style,
                    end.known,
                    found,
                    data,
                    folder,
                    relative,
                    data.projects[j],
                );
            }
        }
    }
    lemma_covered_sources_change_nothing(
        style,
        dir,
        match folder_type(end.target.projects) {
            Some(g) => g,
            None => fresh,
        },
        sources,
        MergeState { target: end.target, known: found },
        n,
    );
}

} // verus!
