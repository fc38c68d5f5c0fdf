//! Copying the libraries that packages install to where the executable is built.

use crate::error::{Error, FileText};
use crate::paths::{self, PathStyle};
use crate::sln::{ProjectView, SlnData};
use crate::sln_merge_kit;
use crate::text;
use crate::text_laws;
use vstd::prelude::*;

verus! {

/// A node of an XML document: how deep it stands, its tag, an attribute, and its text.
pub type XmlNodeView = (int, Seq<char>, Option<Seq<char>>, Option<Seq<char>>);

/// The nodes that `roxmltree` finds in an XML text from the root element on, in the order of the
/// document, each with the given attribute.
pub uninterp spec fn xml_nodes_of(content: Seq<char>, attribute: Seq<char>) -> Option<
    Seq<(int, Seq<char>, Option<Seq<char>>, Option<Seq<char>>)>,
>;

/// A node of an XML document.
pub struct XmlNode {
    /// How many nodes stand around it, with itself.
    pub depth: usize,
    /// The local name of its tag; empty where it is no element.
    pub tag: String,
    /// The value of the attribute that was asked for.
    pub attribute: Option<String>,
    pub text: Option<String>,
}

impl View for XmlNode {
    type V = XmlNodeView;

    open spec fn view(&self) -> XmlNodeView {
        (self.depth as int, self.tag@, text::opt_text(self.attribute), text::opt_text(self.text))
    }
}

/// The content of every node of a list.
pub open spec fn node_views(nodes: Seq<XmlNode>) -> Seq<XmlNodeView> {
    Seq::new(nodes.len(), |i: int| nodes[i]@)
}

/// The elements of an XML text are few enough for `roxmltree` to number the namespaces that they
/// have: each element has at most as many as the text declares.
pub open spec fn is_numberable(content: Seq<char>) -> bool {
    text::count_of(content, "xmlns"@) * text::count_of(content, "<"@) < u32::MAX
}

/// Whether `roxmltree` can number the namespaces of the elements of an XML text.
fn can_be_numbered(content: &str) -> (r: bool)
    ensures
        r == is_numberable(content@),
{
    let declared = text::count(content, "xmlns");
    let elements = text::count(content, "<");
    match declared.checked_mul(elements) {
        Some(product) => (product as u64) < u32::MAX as u64,
        None => false,
    }
}

/// `roxmltree::Document::parse`, and the root element with its descendants: of each the number
/// of its ancestors with itself, the local name of its tag, the value of an attribute without
/// namespace, and its text; `None` where the text is no XML. It numbers the namespaces of all
/// elements together in 32 bits, and panics where they do not do.
#[verifier::external_body]
fn xml_nodes(content: &str, attribute: &str) -> (r: Option<Vec<XmlNode>>)
    requires
        is_numberable(content@),
    ensures
        (match r {
            Some(nodes) => Some(node_views(nodes@)),
            None => None,
        }) == xml_nodes_of(content@, attribute@),
{
    let doc = roxmltree::Document::parse(content).ok()?;
    let node = |n: roxmltree::Node| XmlNode {
        depth: n.ancestors().count(),
        tag: n.tag_name().name().to_string(),
        attribute: n.attribute(attribute).map(|s| s.to_string()),
        text: n.text().map(|s| s.to_string()),
    };
    Some(doc.root_element().descendants().map(node).collect())
}

/// The node is an output directory for the build configuration.
pub open spec fn is_out_dir(node: XmlNodeView, build_config: Seq<char>) -> bool {
    &&& node.1 == "OutDir"@
    &&& node.2 matches Some(condition) && text::contains_text(condition, build_config)
    &&& node.3 is Some
}

/// The text of the first output directory for the build configuration, from node `i` on, in a
/// group of properties directly below the root; `inside` says whether the last child of the
/// root before was such a group.
pub open spec fn out_dir_from(
    nodes: Seq<XmlNodeView>,
    build_config: Seq<char>,
    i: int,
    inside: bool,
) -> Option<Seq<char>>
    decreases nodes.len() - i,
{
    if i >= nodes.len() {
        None
    } else if nodes[i].0 == nodes[0].0 + 1 {
        out_dir_from(nodes, build_config, i + 1, nodes[i].1 == "PropertyGroup"@)
    } else if inside && nodes[i].0 == nodes[0].0 + 2 && is_out_dir(nodes[i], build_config) {
        nodes[i].3
    } else {
        out_dir_from(nodes, build_config, i + 1, inside)
    }
}

/// The text of the first output directory for the build configuration.
fn find_out_dir(nodes: &Vec<XmlNode>, build_config: &str) -> (r: Option<String>)
    ensures
        text::opt_text(r) == out_dir_from(node_views(nodes@), build_config@, 0, false),
{
    let ghost all = node_views(nodes@);
    let mut inside = false;
    for i in 0..nodes.len()
        invariant
            all == node_views(nodes@),
            out_dir_from(all, build_config@, 0, false) == out_dir_from(
                all,
                build_config@,
                i as int,
                inside,
            ),
    {
        let node = &nodes[i];
        assert(all[i as int] == node@ && all[0] == nodes@[0]@);
        let below = if node.depth > nodes[0].depth {
            node.depth - nodes[0].depth
        } else {
            0
        };
        if below == 1 {
            inside = text::same_text(node.tag.as_str(), "PropertyGroup");
        } else if inside && below == 2 && text::same_text(node.tag.as_str(), "OutDir") {
            if let Some(condition) = &node.attribute {
                if text::contains(condition.as_str(), build_config) {
                    if let Some(dir) = &node.text {
                        return Some(dir.clone());
                    }
                }
            }
        }
    }
    None
}

/// The output directory that a project file gives: an absolute one as it is, another below the
/// directory of the project file.
pub open spec fn resolved_out_dir(
    style: char,
    vcxproj_file: Seq<char>,
    out_dir: Seq<char>,
) -> Option<Seq<char>> {
    if paths::absolute_path(style, out_dir) {
        Some(out_dir)
    } else {
        match paths::parent_path(style, vcxproj_file) {
            Some(dir) => Some(paths::joined_path(style, dir, out_dir)),
            None => None,
        }
    }
}

/// The output directory in the nodes of a project file.
pub open spec fn out_dir_in(
    style: char,
    vcxproj_file: Seq<char>,
    nodes: Option<Seq<XmlNodeView>>,
    build_config: Seq<char>,
) -> Option<Seq<char>> {
    match nodes {
        Some(nodes) => match out_dir_from(nodes, build_config, 0, false) {
            Some(dir) => resolved_out_dir(style, vcxproj_file, dir),
            None => None,
        },
        None => None,
    }
}

/// The output directory in the nodes of a project file.
pub fn find_build_out_dir_in_nodes(
    style: &PathStyle,
    vcxproj_file: &str,
    nodes: &Vec<XmlNode>,
    cpp_build_config: &str,
) -> (r: Option<String>)
    ensures
        text::opt_text(r) == out_dir_in(
            style@,
            vcxproj_file@,
            Some(node_views(nodes@)),
            cpp_build_config@,
        ),
{
    match find_out_dir(nodes, cpp_build_config) {
        None => None,
        Some(dir) => if paths::is_absolute(style, dir.as_str()) {
            Some(dir)
        } else {
            match paths::parent(style, vcxproj_file) {
                Some(parent) => Some(paths::join(style, parent.as_str(), dir.as_str())),
                None => None,
            }
        },
    }
}

/// The nodes of a project file with their conditions; none where it is no XML or has too many
/// namespaces.
pub open spec fn readable_nodes(content: Seq<char>) -> Option<Seq<XmlNodeView>> {
    if is_numberable(content) {
        xml_nodes_of(content, "Condition"@)
    } else {
        None
    }
}

/// The output directory for the build configuration that a project file gives.
pub fn find_build_out_dir_from_vcxproj_file(
    style: &PathStyle,
    vcxproj_file: &str,
    content: &str,
    cpp_build_config: &str,
) -> (r: Option<String>)
    ensures
        text::opt_text(r) == out_dir_in(
            style@,
            vcxproj_file@,
            readable_nodes(content@),
            cpp_build_config@,
        ),
{
    if !can_be_numbered(content) {
        return None;
    }
    match xml_nodes(content, "Condition") {
        None => None,
        Some(nodes) => find_build_out_dir_in_nodes(style, vcxproj_file, &nodes, cpp_build_config),
    }
}

/// The project is one for the compiler's build tool inside the solution's own directory.
pub open spec fn may_have_out_dir(style: char, p: ProjectView) -> bool {
    !paths::path_begins_with(style, p.path, ".."@) && paths::path_extension(style, p.path) == Some(
        "vcxproj"@,
    )
}

/// The project files of a solution that may give the output directory.
pub open spec fn out_dir_projects(
    style: char,
    dir: Seq<char>,
    projects: Seq<ProjectView>,
) -> Seq<Seq<char>>
    decreases projects.len(),
{
    if projects.len() == 0 {
        Seq::empty()
    } else {
        let rest = out_dir_projects(style, dir, projects.drop_last());
        if may_have_out_dir(style, projects.last()) {
            rest.push(paths::joined_path(style, dir, projects.last().path))
        } else {
            rest
        }
    }
}

/// The project files of a solution to look for the output directory in, in the order to look.
pub fn project_files_with_out_dir(
    style: &PathStyle,
    target_sln_file: &str,
    solution: &SlnData,
) -> (r: Vec<String>)
    ensures
        text::texts(r@) == out_dir_projects(
            style@,
            sln_merge_kit::directory_of(style@, target_sln_file@),
            solution@.projects,
        ),
{
    let dir = sln_merge_kit::directory(style, target_sln_file);
    let ghost all = solution@.projects;
    let mut out: Vec<String> = Vec::new();
    assert(text::texts(out@) =~= Seq::empty());
    for i in 0..solution.projects.len()
        invariant
            all == solution@.projects,
            text::texts(out@) == out_dir_projects(style@, dir@, all.take(i as int)),
    {
        assert(all.take(i + 1).drop_last() =~= all.take(i as int));
        let p = &solution.projects[i];
        assert(all[i as int] == p@);
        let fits = match paths::extension(style, p.project_path.as_str()) {
            Some(e) => text::same_text(e.as_str(), "vcxproj"),
            None => false,
        };
        if fits && !paths::begins_with(style, p.project_path.as_str(), "..") {
            text::push_text(
                &mut out,
                paths::join(style, dir.as_str(), p.project_path.as_str()),
            );
        }
    }
    assert(all.take(all.len() as int) =~= all);
    out
}

/// The first output directory for the build configuration that the project files from `from` on
/// give; `contents` holds what could be read of them.
pub open spec fn first_out_dir(
    style: char,
    files: Seq<Seq<char>>,
    contents: Seq<FileText>,
    build_config: Seq<char>,
    from: int,
) -> Option<Seq<char>>
    decreases files.len() - from,
{
    if from >= files.len() {
        None
    } else {
        let found = match contents[from] {
            FileText::Text(content) => out_dir_in(
                style,
                files[from],
                readable_nodes(content@),
                build_config,
            ),
            _ => None,
        };
        match found {
            Some(dir) => Some(dir),
            None => first_out_dir(style, files, contents, build_config, from + 1),
        }
    }
}

/// The output directory of a solution for the build configuration: that of the first of its
/// project files that gives one. `contents` holds what could be read of the files in the order of
/// [`project_files_with_out_dir`].
pub fn find_build_out_dir_from_sln_file(
    style: &PathStyle,
    target_sln_file: &str,
    solution: &SlnData,
    contents: &Vec<FileText>,
    cpp_build_config: &str,
) -> (r: Result<String, Error>)
    requires
        contents@.len() == out_dir_projects(
            style@,
            sln_merge_kit::directory_of(style@, target_sln_file@),
            solution@.projects,
        ).len(),
    ensures
        ({
            let files = out_dir_projects(
                style@,
                sln_merge_kit::directory_of(style@, target_sln_file@),
                solution@.projects,
            );
            match first_out_dir(style@, files, contents@, cpp_build_config@, 0) {
                Some(dir) => r matches Ok(d) && d@ == dir,
                None => r matches Err(e) && e.message@ == no_out_dir_message(target_sln_file@),
            }
        }),
{
    let files = project_files_with_out_dir(style, target_sln_file, solution);
    let ghost all = text::texts(files@);
    for i in 0..files.len()
        invariant
            all == text::texts(files@),
            all == out_dir_projects(
                style@,
                sln_merge_kit::directory_of(style@, target_sln_file@),
                solution@.projects,
            ),
            contents@.len() == all.len(),
            first_out_dir(style@, all, contents@, cpp_build_config@, 0) == first_out_dir(
                style@,
                all,
                contents@,
                cpp_build_config@,
                i as int,
            ),
    {
        assert(all[i as int] == files@[i as int]@);
        if let FileText::Text(content) = &contents[i] {
            if let Some(dir) = find_build_out_dir_from_vcxproj_file(
                style,
                files[i].as_str(),
                content.as_str(),
                cpp_build_config,
            ) {
                return Ok(dir);
            }
        }
    }
    let mut message = "Failed to find build output directory from sln file '".to_owned();
    message.append(target_sln_file);
    message.append("'");
    Err(Error::new(message.as_str()))
}

/// The failure to find the output directory of a solution.
pub open spec fn no_out_dir_message(sln_file: Seq<char>) -> Seq<char> {
    "Failed to find build output directory from sln file '"@ + sln_file + "'"@
}

/// The line is the path of a library.
pub open spec fn is_dll_line(line: Seq<char>) -> bool {
    text::trim_of(line).len() > 0 && text::ends_in(
        text::lowercase_of(text::trim_of(line)),
        ".dll"@,
    )
}

/// The paths of libraries among the lines.
pub open spec fn dll_lines(lines: Seq<Seq<char>>) -> Seq<Seq<char>>
    decreases lines.len(),
{
    if lines.len() == 0 {
        Seq::empty()
    } else if is_dll_line(lines.last()) {
        dll_lines(lines.drop_last()).push(text::trim_of(lines.last()))
    } else {
        dll_lines(lines.drop_last())
    }
}

/// The libraries in a list of installed files.
pub fn installed_dlls(install_manifest: &str) -> (r: Vec<String>)
    ensures
        text::texts(r@) == dll_lines(text::lines_of(install_manifest@)),
{
    let lines = text::lines(install_manifest);
    let ghost all = text::texts(lines@);
    let mut out: Vec<String> = Vec::new();
    assert(text::texts(out@) =~= Seq::empty());
    for i in 0..lines.len()
        invariant
            all == text::texts(lines@),
            text::texts(out@) == dll_lines(all.take(i as int)),
    {
        assert(all.take(i + 1).drop_last() =~= all.take(i as int));
        let line = text::trim(lines[i].as_str());
        if !text::is_empty(line.as_str()) && text::ends_with(
            text::to_lowercase(line.as_str()).as_str(),
            ".dll",
        ) {
            text::push_text(&mut out, line);
        }
    }
    assert(all.take(all.len() as int) =~= all);
    out
}

/// A file: its size and when it was last changed.
#[derive(Clone, Copy)]
pub struct FileStamp {
    pub size: u64,
    /// In nanoseconds from a fixed time on.
    pub modified: u128,
}

/// What is to be done about a library.
pub enum DllAction {
    /// It is not there.
    SkipMissing,
    /// It has no file name.
    NoFileName,
    /// Its like at the target is up to date.
    UpToDate,
    /// It is to be copied to this path.
    Copy(String),
}

/// Where a library is to be copied to.
pub fn dll_target(style: &PathStyle, target_dir: &str, source: &str) -> (r: Option<String>)
    ensures
        text::opt_text(r) == (match paths::path_file_name(style@, source@) {
            Some(name) => Some(paths::joined_path(style@, target_dir@, name)),
            None => None,
        }),
{
    match paths::file_name(style, source) {
        Some(name) => Some(paths::join(style, target_dir, name.as_str())),
        None => None,
    }
}

/// Whether a library is to be copied: where there is none at the target, or one of another
/// size, or an older one.
pub open spec fn needs_copy(source: FileStamp, target: Option<FileStamp>) -> bool {
    match target {
        None => true,
        Some(t) => source.size != t.size || source.modified > t.modified,
    }
}

/// What is to be done about a library, where `target` is what stands at its target path.
pub fn copy_dll(
    style: &PathStyle,
    target_dir: &str,
    source_path: &str,
    source: Option<FileStamp>,
    target: Option<FileStamp>,
) -> (r: DllAction)
    ensures
        match source {
            None => r is SkipMissing,
            Some(stamp) => match paths::path_file_name(style@, source_path@) {
                None => r is NoFileName,
                Some(name) => if needs_copy(stamp, target) {
                    r matches DllAction::Copy(to) && to@ == paths::joined_path(
                        style@,
                        target_dir@,
                        name,
                    )
                } else {
                    r is UpToDate
                },
            },
        },
{
    let stamp = match source {
        Some(stamp) => stamp,
        None => {
            return DllAction::SkipMissing;
        },
    };
    let to = match dll_target(style, target_dir, source_path) {
        Some(to) => to,
        None => {
            return DllAction::NoFileName;
        },
    };
    let needed = match target {
        None => true,
        Some(t) => stamp.size != t.size || stamp.modified > t.modified,
    };
    if needed {
        DllAction::Copy(to)
    } else {
        DllAction::UpToDate
    }
}

/// A library that was just copied is up to date, unless its source changes or shrinks or grows.
pub proof fn law_copied_library_is_up_to_date(source: FileStamp, copied: FileStamp)
    requires
        copied.size == source.size,
        copied.modified >= source.modified,
    ensures
        !needs_copy(source, Some(copied)),
{
}

/// The last node before node `k` that is a child of the root is a group of properties.
pub open spec fn is_in_group(nodes: Seq<XmlNodeView>, k: int) -> bool {
    exists|g: int|
        0 <= g < k && (#[trigger] nodes[g]).0 == nodes[0].0 + 1 && nodes[g].1 == "PropertyGroup"@
            && forall|m: int| g < m < k ==> (#[trigger] nodes[m]).0 != nodes[0].0 + 1
}

/// Node `k` gives the output directory for the build configuration: it stands in a group of
/// properties right below the root, is called so, has a condition with the configuration in it,
/// and a text.
pub open spec fn gives_out_dir(
    nodes: Seq<XmlNodeView>,
    build_config: Seq<char>,
    k: int,
) -> bool {
    &&& 0 <= k < nodes.len()
    &&& nodes[k].0 == nodes[0].0 + 2
    &&& is_in_group(nodes, k)
    &&& nodes[k].1 == "OutDir"@
    &&& nodes[k].2 is Some
    &&& exists|before: Seq<char>, after: Seq<char>|
        nodes[k].2->0 == #[trigger] (before + build_config + after)
    &&& nodes[k].3 is Some
}

proof fn lemma_out_dir(
    nodes: Seq<XmlNodeView>,
    build_config: Seq<char>,
    i: int,
    inside: bool,
)
    requires
        0 <= i <= nodes.len(),
        inside == is_in_group(nodes, i),
    ensures
        match out_dir_from(nodes, build_config, i, inside) {
            Some(dir) => exists|k: int|
                i <= k && #[trigger] gives_out_dir(nodes, build_config, k) && nodes[k].3 == Some(
                    dir,
                ) && forall|j: int|
                    i <= j < k ==> !#[trigger] gives_out_dir(nodes, build_config, j),
            None => forall|j: int|
                i <= j < nodes.len() ==> !#[trigger] gives_out_dir(nodes, build_config, j),
        },
    decreases nodes.len() - i,
{
    if i < nodes.len() {
        let next = if nodes[i].0 == nodes[0].0 + 1 {
            nodes[i].1 == "PropertyGroup"@
        } else {
            inside
        };
        assert(next == is_in_group(nodes, i + 1)) by {
            if nodes[i].0 == nodes[0].0 + 1 {
                if next {
                    assert(nodes[i].1 == "PropertyGroup"@);
                }
                if is_in_group(nodes, i + 1) {
                    let g = choose|g: int|
                        0 <= g < i + 1 && (#[trigger] nodes[g]).0 == nodes[0].0 + 1 && nodes[g].1
                            == "PropertyGroup"@ && forall|m: int|
                            g < m < i + 1 ==> (#[trigger] nodes[m]).0 != nodes[0].0 + 1;
                    assert(g == i);
                }
            } else {
                if inside {
                    let g = choose|g: int|
                        0 <= g < i && (#[trigger] nodes[g]).0 == nodes[0].0 + 1 && nodes[g].1
                            == "PropertyGroup"@ && forall|m: int|
                            g < m < i ==> (#[trigger] nodes[m]).0 != nodes[0].0 + 1;
                    assert(nodes[g].0 == nodes[0].0 + 1);
                }
                if is_in_group(nodes, i + 1) {
                    let g = choose|g: int|
                        0 <= g < i + 1 && (#[trigger] nodes[g]).0 == nodes[0].0 + 1 && nodes[g].1
                            == "PropertyGroup"@ && forall|m: int|
                            g < m < i + 1 ==> (#[trigger] nodes[m]).0 != nodes[0].0 + 1;
                    assert(g < i);
                }
            }
        }
        if nodes[i].2 is Some {
            text_laws::law_containing(nodes[i].2->0, build_config);
        }
        let hit = nodes[i].0 != nodes[0].0 + 1 && inside && nodes[i].0 == nodes[0].0 + 2
            && is_out_dir(nodes[i], build_config);
        assert(hit == gives_out_dir(nodes, build_config, i));
        if !hit {
            lemma_out_dir(nodes, build_config, i + 1, next);
            if let Some(dir) = out_dir_from(nodes, build_config, i, inside) {
                let k = choose|k: int|
                    i + 1 <= k && #[trigger] gives_out_dir(nodes, build_config, k) && nodes[k].3
                        == Some(dir) && forall|j: int|
                        i + 1 <= j < k ==> !#[trigger] gives_out_dir(nodes, build_config, j);
                assert(gives_out_dir(nodes, build_config, k));
            }
        } else {
            assert(gives_out_dir(nodes, build_config, i));
        }
    }
}

/// The output directory of a project is what the first node that gives one says, below the
/// directory of the project file unless it is absolute; there is none exactly where no node gives
/// one, or the project file is in no directory.
pub proof fn law_output_directory_is_read(
    style: &PathStyle,
    file: &str,
    nodes: &Vec<XmlNode>,
    build_config: &str,
    r: Option<String>,
)
    requires
        call_ensures(find_build_out_dir_in_nodes, (style, file, nodes, build_config), r),
    ensures
        ({
            let all = node_views(nodes@);
            &&& forall|k: int| #[trigger]
                gives_out_dir(all, build_config@, k) && (forall|j: int|
                    0 <= j < k ==> !#[trigger] gives_out_dir(all, build_config@, j)) ==> {
                    let dir = all[k].3->0;
                    if paths::absolute_path(style@, dir) {
                        r matches Some(found) && found@ == dir
                    } else {
                        match paths::parent_path(style@, file@) {
                            Some(home) => r matches Some(found) && found@ == paths::joined_path(
                                style@,
                                home,
                                dir,
                            ),
                            None => r is None,
                        }
                    }
                }
            &&& (forall|j: int|
                0 <= j < all.len() ==> !#[trigger] gives_out_dir(all, build_config@, j)) ==> r
                is None
        }),
{
    let all = node_views(nodes@);
    assert(!is_in_group(all, 0));
    lemma_out_dir(all, build_config@, 0, false);
    assert forall|k: int| #[trigger]
        gives_out_dir(all, build_config@, k) && (forall|j: int|
            0 <= j < k ==> !#[trigger] gives_out_dir(all, build_config@, j)) implies out_dir_from(
        all,
        build_config@,
        0,
        false,
    ) == Some(all[k].3->0) by {
        match out_dir_from(all, build_config@, 0, false) {
            Some(dir) => {
                let m = choose|m: int|
                    0 <= m && #[trigger] gives_out_dir(all, build_config@, m) && all[m].3 == Some(
                        dir,
                    ) && forall|j: int|
                        0 <= j < m ==> !#[trigger] gives_out_dir(all, build_config@, j);
                if m < k {
                    assert(!gives_out_dir(all, build_config@, m));
                } else if k < m {
                    assert(!gives_out_dir(all, build_config@, k));
                }
            },
            None => {
                assert(!gives_out_dir(all, build_config@, k));
            },
        }
    }
}

/// The output directory is looked for in all projects of the solution for the compiler's build
/// tool that are inside its own directory, in their order.
pub proof fn law_projects_are_looked_through(
    style: &PathStyle,
    sln_file: &str,
    solution: &SlnData,
    r: Vec<String>,
)
    requires
        call_ensures(project_files_with_out_dir, (style, sln_file, solution), r),
    ensures
        text::texts(r@) == solution@.projects.filter(
            |p: ProjectView|
                paths::path_extension(style@, p.path) == Some("vcxproj"@)
                    && !paths::path_begins_with(style@, p.path, ".."@),
        ).map_values(
            |p: ProjectView|
                paths::joined_path(
                    style@,
                    match paths::parent_path(style@, sln_file@) {
                        Some(dir) => dir,
                        None => "."@,
                    },
                    p.path,
                ),
        ),
{
    lemma_looked_through(
        style@,
        match paths::parent_path(style@, sln_file@) {
            Some(dir) => dir,
            None => "."@,
        },
        solution@.projects,
    );
}

proof fn lemma_looked_through(style: char, dir: Seq<char>, projects: Seq<ProjectView>)
    ensures
        out_dir_projects(style, dir, projects) == projects.filter(
            |p: ProjectView|
                paths::path_extension(style, p.path) == Some("vcxproj"@)
                    && !paths::path_begins_with(style, p.path, ".."@),
        ).map_values(|p: ProjectView| paths::joined_path(style, dir, p.path)),
    decreases projects.len(),
{
    let keep = |p: ProjectView|
        paths::path_extension(style, p.path) == Some("vcxproj"@) && !paths::path_begins_with(
            style,
            p.path,
            ".."@,
        );
    let place = |p: ProjectView| paths::joined_path(style, dir, p.path);
    reveal(Seq::filter);
    if projects.len() > 0 {
        let front = projects.drop_last();
        lemma_looked_through(style, dir, front);
        let rest = front.filter(keep);
        assert(rest.push(projects.last()).map_values(place) =~= rest.map_values(place).push(
            place(projects.last()),
        ));
    } else {
        assert(projects.filter(keep).map_values(place) =~= Seq::empty());
    }
}

/// The first project file that gives an output directory decides.
pub proof fn law_first_output_directory_counts(
    style: &PathStyle,
    sln_file: &str,
    solution: &SlnData,
    contents: &Vec<FileText>,
    build_config: &str,
    files: Vec<String>,
    r: Result<String, Error>,
)
    requires
        call_ensures(project_files_with_out_dir, (style, sln_file, solution), files),
        contents@.len() == files@.len(),
        call_ensures(
            find_build_out_dir_from_sln_file,
            (style, sln_file, solution, contents, build_config),
            r,
        ),
    ensures
        forall|i: int|
            0 <= i < files@.len() && #[trigger] out_dir_of(
                style@,
                files@[i]@,
                contents@[i],
                build_config@,
            ) is Some && (forall|j: int|
                0 <= j < i ==> #[trigger] out_dir_of(
                    style@,
                    files@[j]@,
                    contents@[j],
                    build_config@,
                ) is None) ==> (r matches Ok(dir) && Some(dir@) == out_dir_of(
                style@,
                files@[i]@,
                contents@[i],
                build_config@,
            )),
        (forall|i: int|
            0 <= i < files@.len() ==> #[trigger] out_dir_of(
                style@,
                files@[i]@,
                contents@[i],
                build_config@,
            ) is None) ==> r is Err,
{
    let all = text::texts(files@);
    assert forall|i: int|
        0 <= i < files@.len() && #[trigger] out_dir_of(
            style@,
            files@[i]@,
            contents@[i],
            build_config@,
        ) is Some && (forall|j: int|
            0 <= j < i ==> #[trigger] out_dir_of(
                style@,
                files@[j]@,
                contents@[j],
                build_config@,
            ) is None) implies first_out_dir(style@, all, contents@, build_config@, 0)
        == out_dir_of(style@, files@[i]@, contents@[i], build_config@) by {
        lemma_first_out_dir(style@, all, contents@, build_config@, 0, i);
    }
    if forall|i: int|
        0 <= i < files@.len() ==> #[trigger] out_dir_of(
            style@,
            files@[i]@,
            contents@[i],
            build_config@,
        ) is None {
        lemma_no_out_dir(style@, all, contents@, build_config@, 0);
    }
}

/// The output directory that a project file gives, where it could be read.
pub open spec fn out_dir_of(
    style: char,
    file: Seq<char>,
    content: FileText,
    build_config: Seq<char>,
) -> Option<Seq<char>> {
    match content {
        FileText::Text(t) => out_dir_in(style, file, readable_nodes(t@), build_config),
        _ => None,
    }
}

proof fn lemma_first_out_dir(
    style: char,
    files: Seq<Seq<char>>,
    contents: Seq<FileText>,
    build_config: Seq<char>,
    from: int,
    i: int,
)
    requires
        0 <= from <= i < files.len(),
        contents.len() == files.len(),
        out_dir_of(style, files[i], contents[i], build_config) is Some,
        forall|j: int|
            from <= j < i ==> #[trigger] out_dir_of(style, files[j], contents[j], build_config)
                is None,
    ensures
        first_out_dir(style, files, contents, build_config, from) == out_dir_of(
            style,
            files[i],
            contents[i],
            build_config,
        ),
    decreases i - from,
{
    if from < i {
        assert(out_dir_of(style, files[from], contents[from], build_config) is None);
        lemma_first_out_dir(style, files, contents, build_config, from + 1, i);
    }
}

proof fn lemma_no_out_dir(
    style: char,
    files: Seq<Seq<char>>,
    contents: Seq<FileText>,
    build_config: Seq<char>,
    from: int,
)
    requires
        0 <= from,
        contents.len() == files.len(),
        forall|j: int|
            from <= j < files.len() ==> #[trigger] out_dir_of(
                style,
                files[j],
                contents[j],
                build_config,
            ) is None,
    ensures
        first_out_dir(style, files, contents, build_config, from) is None,
    decreases files.len() - from,
{
    if from < files.len() {
        assert(out_dir_of(style, files[from], contents[from], build_config) is None);
        lemma_no_out_dir(style, files, contents, build_config, from + 1);
    }
}

/// The libraries of an installation are all the lines of its list that end in `.dll`, the case of
/// letters and white space around them aside, in their order.
pub proof fn law_installed_libraries_are_listed(manifest: &str, r: Vec<String>)
    requires
        call_ensures(installed_dlls, (manifest,), r),
    ensures
        text::texts(r@) == text::lines_of(manifest@).map_values(
            |l: Seq<char>| text::trim_of(l),
        ).filter(|p: Seq<char>| p.len() > 0 && text::ends_in(text::lowercase_of(p), ".dll"@)),
{
    lemma_dll_lines(text::lines_of(manifest@));
}

proof fn lemma_dll_lines(lines: Seq<Seq<char>>)
    ensures
        dll_lines(lines) == lines.map_values(|l: Seq<char>| text::trim_of(l)).filter(
            |p: Seq<char>| p.len() > 0 && text::ends_in(text::lowercase_of(p), ".dll"@),
        ),
    decreases lines.len(),
{
    let trim = |l: Seq<char>| text::trim_of(l);
    let keep = |p: Seq<char>| p.len() > 0 && text::ends_in(text::lowercase_of(p), ".dll"@);
    reveal(Seq::filter);
    if lines.len() > 0 {
        lemma_dll_lines(lines.drop_last());
        let all = lines.map_values(trim);
        assert(all.drop_last() =~= lines.drop_last().map_values(trim));
        assert(all.last() == text::trim_of(lines.last()));
    } else {
        assert(lines.map_values(trim) =~= Seq::empty());
        assert(Seq::<Seq<char>>::empty().filter(keep) =~= Seq::empty());
    }
}

/// A library that is there is copied into the target directory under its own name exactly where
/// none is there, or one of another size, or an older one.
pub proof fn law_changed_libraries_are_copied(
    style: &PathStyle,
    target_dir: &str,
    path: &str,
    source: Option<FileStamp>,
    target: Option<FileStamp>,
    r: DllAction,
)
    requires
        call_ensures(copy_dll, (style, target_dir, path, source, target), r),
    ensures
        r is SkipMissing <==> source is None,
        r is NoFileName <==> source is Some && paths::path_file_name(style@, path@) is None,
        r is UpToDate <==> source is Some && paths::path_file_name(style@, path@) is Some
            && target is Some && target->0.size == source->0.size && target->0.modified
            >= source->0.modified,
        r matches DllAction::Copy(to) ==> to@ == paths::joined_path(
            style@,
            target_dir@,
            paths::path_file_name(style@, path@)->0,
        ),
{
}

/// A project file is looked through with the conditions of its nodes, unless it is no XML or could
/// hold too many namespaces.
pub proof fn law_project_files_are_looked_through(
    style: &PathStyle,
    file: &str,
    content: &str,
    build_config: &str,
    nodes: &Vec<XmlNode>,
    found: Option<String>,
    r: Option<String>,
)
    requires
        call_ensures(
            find_build_out_dir_from_vcxproj_file,
            (style, file, content, build_config),
            r,
        ),
        call_ensures(find_build_out_dir_in_nodes, (style, file, nodes, build_config), found),
    ensures
        ({
            let few = text::count_of(content@, "xmlns"@) * text::count_of(content@, "<"@)
                < 0xffff_ffff;
            &&& few && xml_nodes_of(content@, "Condition"@) == Some(node_views(nodes@))
                ==> text::opt_text(r) == text::opt_text(found)
            &&& !few || xml_nodes_of(content@, "Condition"@) is None ==> r is None
        }),
{
}

} // verus!
