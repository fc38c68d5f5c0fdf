//! Solution files: their parts, how a solution is read from text and written back.

use crate::text;
use vstd::prelude::*;

verus! {

/// A project or solution folder.
pub struct ProjectBlock {
    /// Identifies the type of the project.
    pub first_guid: String,
    pub name: String,
    /// Identifies the project.
    pub guid: String,
    pub project_path: String,
    /// The lines between the project's first line and its end.
    pub project_section: Vec<String>,
    /// Whether the project path leads to a file; otherwise the project is a folder.
    pub is_file: bool,
}

/// A section of the global block.
pub struct GlobalSection {
    pub name: String,
    pub header: String,
    pub lines: Vec<String>,
    pub footer: String,
}

/// A solution.
pub struct SlnData {
    pub header: Vec<String>,
    pub projects: Vec<ProjectBlock>,
    pub global_sections: Vec<GlobalSection>,
    pub newline: String,
}

/// Why a solution cannot be read or merged.
#[derive(Debug)]
pub enum SlnError {
    /// The file is missing.
    Missing,
    /// The file cannot be read.
    Unreadable,
    /// The first line of a project holds no type identifier.
    NoFirstGuid(String),
    /// The first line of a project holds no identifier.
    NoGuid(String),
    /// The first line of a project holds no name.
    NoName(String),
    /// The first line of a project holds no path.
    NoPath(String),
    /// The project of this name has no end.
    MissingEndProject(String),
    /// The section of this name has no end.
    MissingEndGlobalSection(String),
    /// There is no global block.
    MissingGlobal,
    /// The folders of a solution contain one another.
    CyclicFolders,
    /// No relative path leads from the merged solution to this one.
    NoRelativePath(String),
    /// The merged solution has no section for the configurations of projects.
    NoConfigurationSection,
    /// The merged solution has no section for the nesting of projects.
    NoNestingSection,
}

/// The content of a [`ProjectBlock`].
#[verifier::ext_equal]
pub struct ProjectView {
    pub first_guid: Seq<char>,
    pub name: Seq<char>,
    pub guid: Seq<char>,
    pub path: Seq<char>,
    pub section: Seq<Seq<char>>,
    pub is_file: bool,
}

/// The content of a [`GlobalSection`].
#[verifier::ext_equal]
pub struct SectionView {
    pub name: Seq<char>,
    pub header: Seq<char>,
    pub lines: Seq<Seq<char>>,
    pub footer: Seq<char>,
}

/// The content of a [`SlnData`].
#[verifier::ext_equal]
pub struct SlnView {
    pub header: Seq<Seq<char>>,
    pub projects: Seq<ProjectView>,
    pub sections: Seq<SectionView>,
    pub newline: Seq<char>,
}

/// The content of a [`SlnError`].
pub enum SlnFault {
    Missing,
    Unreadable,
    NoFirstGuid(Seq<char>),
    NoGuid(Seq<char>),
    NoName(Seq<char>),
    NoPath(Seq<char>),
    MissingEndProject(Seq<char>),
    MissingEndGlobalSection(Seq<char>),
    MissingGlobal,
    CyclicFolders,
    NoRelativePath(Seq<char>),
    NoConfigurationSection,
    NoNestingSection,
}

impl View for ProjectBlock {
    type V = ProjectView;

    open spec fn view(&self) -> ProjectView {
        ProjectView {
            first_guid: self.first_guid@,
            name: self.name@,
            guid: self.guid@,
            path: self.project_path@,
            section: text::texts(self.project_section@),
            is_file: self.is_file,
        }
    }
}

impl View for GlobalSection {
    type V = SectionView;

    open spec fn view(&self) -> SectionView {
        SectionView {
            name: self.name@,
            header: self.header@,
            lines: text::texts(self.lines@),
            footer: self.footer@,
        }
    }
}

/// The content of every project of a list.
pub open spec fn project_views(projects: Seq<ProjectBlock>) -> Seq<ProjectView> {
    Seq::new(projects.len(), |i: int| projects[i]@)
}

/// The content of every section of a list.
pub open spec fn section_views(sections: Seq<GlobalSection>) -> Seq<SectionView> {
    Seq::new(sections.len(), |i: int| sections[i]@)
}

impl View for SlnData {
    type V = SlnView;

    open spec fn view(&self) -> SlnView {
        SlnView {
            header: text::texts(self.header@),
            projects: project_views(self.projects@),
            sections: section_views(self.global_sections@),
            newline: self.newline@,
        }
    }
}

impl View for SlnError {
    type V = SlnFault;

    open spec fn view(&self) -> SlnFault {
        match self {
            SlnError::Missing => SlnFault::Missing,
            SlnError::Unreadable => SlnFault::Unreadable,
            SlnError::NoFirstGuid(s) => SlnFault::NoFirstGuid(s@),
            SlnError::NoGuid(s) => SlnFault::NoGuid(s@),
            SlnError::NoName(s) => SlnFault::NoName(s@),
            SlnError::NoPath(s) => SlnFault::NoPath(s@),
            SlnError::MissingEndProject(s) => SlnFault::MissingEndProject(s@),
            SlnError::MissingEndGlobalSection(s) => SlnFault::MissingEndGlobalSection(s@),
            SlnError::MissingGlobal => SlnFault::MissingGlobal,
            SlnError::CyclicFolders => SlnFault::CyclicFolders,
            SlnError::NoRelativePath(s) => SlnFault::NoRelativePath(s@),
            SlnError::NoConfigurationSection => SlnFault::NoConfigurationSection,
            SlnError::NoNestingSection => SlnFault::NoNestingSection,
        }
    }
}

/// From the start of `tail` to its first closing brace.
pub open spec fn braced(tail: Seq<char>) -> Option<Seq<char>> {
    match text::first_index(tail, '}') {
        Some(j) => Some(tail.take(j + 1)),
        None => None,
    }
}

/// The braces after the first opening brace of a line, with what is inside.
pub open spec fn first_guid_in(line: Seq<char>) -> Option<Seq<char>> {
    match text::first_index(line, '{') {
        Some(i) => braced(line.skip(i)),
        None => None,
    }
}

/// The braces after the last opening brace of a line, with what is inside.
pub open spec fn last_guid_in(line: Seq<char>) -> Option<Seq<char>> {
    match text::last_index(line, '{') {
        Some(i) => braced(line.skip(i)),
        None => None,
    }
}

/// A field of a project's first line: without white space and quotation marks around it.
pub open spec fn field_of(s: Seq<char>) -> Seq<char> {
    text::trim_of(
        text::strip_trailing(text::strip_leading(text::trim_of(s), '"'), '"'),
    )
}

/// Index of the first line from `k` on that ends a project, or the number of lines.
pub open spec fn project_end(lines: Seq<Seq<char>>, k: int) -> int
    decreases lines.len() - k,
{
    if k >= lines.len() || text::trim_of(lines[k]) == "EndProject"@ {
        k
    } else {
        project_end(lines, k + 1)
    }
}

/// The project whose first line is line `k`, with the index of the line after its end.
pub open spec fn project_at(lines: Seq<Seq<char>>, k: int) -> Result<(ProjectView, int), SlnFault> {
    let line = lines[k];
    let sides = text::split_of(line, '=');
    let fields = text::split_of(sides[1], ',');
    let end = project_end(lines, k);
    if first_guid_in(line) is None {
        Err(SlnFault::NoFirstGuid(line))
    } else if last_guid_in(line) is None {
        Err(SlnFault::NoGuid(line))
    } else if sides.len() < 2 {
        Err(SlnFault::NoName(line))
    } else if fields.len() < 2 {
        Err(SlnFault::NoPath(line))
    } else if end >= lines.len() {
        Err(SlnFault::MissingEndProject(field_of(fields[0])))
    } else {
        Ok(
            (
                ProjectView {
                    first_guid: first_guid_in(line)->0,
                    name: field_of(fields[0]),
                    guid: last_guid_in(line)->0,
                    path: field_of(fields[1]),
                    section: if k + 1 <= end {
                        lines.subrange(k + 1, end)
                    } else {
                        Seq::empty()
                    },
                    is_file: true,
                },
                end + 1,
            ),
        )
    }
}

/// Index of the first line from `k` on that ends a section, or the number of lines.
pub open spec fn section_end(lines: Seq<Seq<char>>, k: int) -> int
    decreases lines.len() - k,
{
    if k >= lines.len() || text::begins_with(
        text::trim_start_of(lines[k]),
        "EndGlobalSection"@,
    ) {
        k
    } else {
        section_end(lines, k + 1)
    }
}

/// The name in a section's first line.
pub open spec fn section_name(line: Seq<char>) -> Seq<char> {
    text::split_of(
        text::strip_repeated(text::trim_start_of(line), "GlobalSection("@),
        ')',
    )[0]
}

/// The section whose first line is line `k`, with the index of the line after its end.
pub open spec fn section_at(lines: Seq<Seq<char>>, k: int) -> Result<(SectionView, int), SlnFault> {
    let end = section_end(lines, k + 1);
    if end >= lines.len() {
        Err(SlnFault::MissingEndGlobalSection(section_name(lines[k])))
    } else {
        Ok(
            (
                SectionView {
                    name: section_name(lines[k]),
                    header: lines[k],
                    lines: lines.subrange(k + 1, end),
                    footer: lines[end],
                },
                end + 1,
            ),
        )
    }
}

/// The sections from line `k` on up to the end of the global block, after those found before.
pub open spec fn sections_from(
    lines: Seq<Seq<char>>,
    k: int,
    before: Seq<SectionView>,
) -> Result<Seq<SectionView>, SlnFault>
    decreases lines.len() - k,
{
    if k >= lines.len() {
        Ok(before)
    } else {
        let start = text::trim_start_of(lines[k]);
        if text::begins_with(start, "GlobalSection("@) {
            match section_at(lines, k) {
                Err(e) => Err(e),
                Ok((section, next)) => if next > k {
                    sections_from(lines, next, before.push(section))
                } else {
                    Ok(before)
                },
            }
        } else if start == "EndGlobal"@ {
            Ok(before)
        } else {
            sections_from(lines, k + 1, before)
        }
    }
}

/// The solution in the lines from `k` on, after the header lines and projects found before.
pub open spec fn sln_from(
    lines: Seq<Seq<char>>,
    k: int,
    header: Seq<Seq<char>>,
    projects: Seq<ProjectView>,
    newline: Seq<char>,
) -> Result<SlnView, SlnFault>
    decreases lines.len() - k,
{
    if k >= lines.len() {
        Err(SlnFault::MissingGlobal)
    } else {
        let start = text::trim_start_of(lines[k]);
        if text::begins_with(start, "Project("@) {
            match project_at(lines, k) {
                Err(e) => Err(e),
                Ok((project, next)) => if next > k {
                    sln_from(lines, next, header, projects.push(project), newline)
                } else {
                    Err(SlnFault::MissingGlobal)
                },
            }
        } else if start == "Global"@ {
            match sections_from(lines, k, Seq::empty()) {
                Err(e) => Err(e),
                Ok(sections) => Ok(SlnView { header, projects, sections, newline }),
            }
        } else {
            sln_from(lines, k + 1, header.push(lines[k]), projects, newline)
        }
    }
}

/// The line ending of a text.
pub open spec fn newline_of(content: Seq<char>) -> Seq<char> {
    if text::contains_text(content, "\r\n"@) {
        "\r\n"@
    } else {
        "\n"@
    }
}

/// The solution that a text holds, with every project taken for a file.
pub open spec fn sln_of(content: Seq<char>) -> Result<SlnView, SlnFault> {
    sln_from(
        text::lines_of(content),
        0,
        Seq::empty(),
        Seq::empty(),
        newline_of(content),
    )
}

/// What is in the braces from `from` on.
fn braced_from(chars: &Vec<char>, from: usize) -> (r: Option<String>)
    requires
        from <= chars@.len(),
    ensures
        text::opt_text(r) == braced(chars@.skip(from as int)),
{
    match text::find_char(chars, '}', from) {
        Some(j) => {
            let s = text::text_of(chars, from, j + 1);
            assert(s@ =~= chars@.skip(from as int).take(j - from + 1));
            Some(s)
        },
        None => None,
    }
}

/// The last identifier in a line.
pub fn extract_guid_from_line(line: &str) -> (r: Option<String>)
    ensures
        text::opt_text(r) == last_guid_in(line@),
{
    let chars = text::chars_of(line);
    match text::rfind_char(&chars, '{') {
        Some(i) => braced_from(&chars, i),
        None => None,
    }
}

/// The first identifier in a line.
pub fn extract_first_guid_from_line(line: &str) -> (r: Option<String>)
    ensures
        text::opt_text(r) == first_guid_in(line@),
{
    let chars = text::chars_of(line);
    assert(chars@.skip(0) =~= chars@);
    match text::find_char(&chars, '{', 0) {
        Some(i) => braced_from(&chars, i),
        None => None,
    }
}

/// A field of a project's first line.
fn read_field(s: &str) -> (r: String)
    ensures
        r@ == field_of(s@),
{
    text::trim(text::trim_char(text::trim(s).as_str(), '"').as_str())
}

/// A copy of the lines from `from` to `to`.
pub fn clone_range(lines: &Vec<String>, from: usize, to: usize) -> (r: Vec<String>)
    requires
        from <= to <= lines@.len(),
    ensures
        text::texts(r@) == text::texts(lines@).subrange(from as int, to as int),
{
    let mut out: Vec<String> = Vec::new();
    for i in from..to
        invariant
            from <= to <= lines@.len(),
            text::texts(out@) == text::texts(lines@).subrange(from as int, i as int),
    {
        let ghost before = out@;
        out.push(lines[i].clone());
        assert(text::texts(out@) =~= text::texts(before).push(lines@[i as int]@));
    }
    out
}

proof fn lemma_project_end(lines: Seq<Seq<char>>, k: int)
    requires
        k <= lines.len(),
    ensures
        k <= project_end(lines, k) <= lines.len(),
    decreases lines.len() - k,
{
    if k < lines.len() {
        lemma_project_end(lines, k + 1);
    }
}

/// Reads the project whose first line is at `idx`, and moves `idx` behind it.
pub fn parse_project(idx: &mut usize, lines: &Vec<String>) -> (r: Result<ProjectBlock, SlnError>)
    requires
        *old(idx) < lines.len(),
    ensures
        match r {
            Ok(project) => project_at(text::texts(lines@), *old(idx) as int) == Ok::<
                (ProjectView, int),
                SlnFault,
            >((project@, *final(idx) as int)) && *final(idx) <= lines@.len(),
            Err(e) => project_at(text::texts(lines@), *old(idx) as int) == Err::<
                (ProjectView, int),
                SlnFault,
            >(e@),
        },
{
    let ghost all = text::texts(lines@);
    let k: usize = *idx;
    let line = lines[k].as_str();
    let first_guid = match extract_first_guid_from_line(line) {
        Some(guid) => guid,
        None => {
            return Err(SlnError::NoFirstGuid(line.to_owned()));
        },
    };
    let guid = match extract_guid_from_line(line) {
        Some(guid) => guid,
        None => {
            return Err(SlnError::NoGuid(line.to_owned()));
        },
    };
    let sides = text::split(line, '=');
    assert(text::texts(sides@).len() == sides@.len());
    if sides.len() < 2 {
        return Err(SlnError::NoName(line.to_owned()));
    }
    assert(text::texts(sides@)[1] == sides@[1]@);
    let fields = text::split(sides[1].as_str(), ',');
    assert(text::texts(fields@).len() == fields@.len());
    if fields.len() < 2 {
        return Err(SlnError::NoPath(line.to_owned()));
    }
    assert(text::texts(fields@)[0] == fields@[0]@ && text::texts(fields@)[1] == fields@[1]@);
    let name = read_field(fields[0].as_str());
    let project_path = read_field(fields[1].as_str());
    let mut end: usize = k;
    while end < lines.len() && !text::same_text(text::trim(lines[end].as_str()).as_str(), "EndProject")
        invariant
            all == text::texts(lines@),
            k <= end <= lines@.len(),
            project_end(all, k as int) == project_end(all, end as int),
        decreases lines.len() - end,
    {
        end += 1;
    }
    if end >= lines.len() {
        return Err(SlnError::MissingEndProject(name));
    }
    *idx = end + 1;
    let project_section = if k < end {
        clone_range(lines, k + 1, end)
    } else {
        Vec::new()
    };
    let project = ProjectBlock { first_guid, name, guid, project_path, project_section, is_file: true };
    assert(project@ =~= project_at(all, k as int)->Ok_0.0);
    Ok(project)
}

/// Reads the section whose first line is at `idx`, and moves `idx` behind it.
pub fn parse_global_section(idx: &mut usize, lines: &Vec<String>) -> (r: Result<
    GlobalSection,
    SlnError,
>)
    requires
        *old(idx) < lines.len(),
    ensures
        match r {
            Ok(section) => section_at(text::texts(lines@), *old(idx) as int) == Ok::<
                (SectionView, int),
                SlnFault,
            >((section@, *final(idx) as int)) && *old(idx) < *final(idx) <= lines@.len(),
            Err(e) => section_at(text::texts(lines@), *old(idx) as int) == Err::<
                (SectionView, int),
                SlnFault,
            >(e@),
        },
{
    let ghost all = text::texts(lines@);
    let k: usize = *idx;
    let start = text::trim_start(lines[k].as_str());
    let rest = text::trim_prefixes(start.as_str(), "GlobalSection(");
    let parts = text::split(rest.as_str(), ')');
    proof {
        assert(text::split_of(rest@, ')').len() > 0);
        assert(text::texts(parts@).len() == parts@.len());
        assert(text::texts(parts@)[0] == parts@[0]@);
    }
    let name = parts[0].clone();
    let mut end: usize = k + 1;
    while end < lines.len() && !text::starts_with(
        text::trim_start(lines[end].as_str()).as_str(),
        "EndGlobalSection",
    )
        invariant
            all == text::texts(lines@),
            k < end <= lines@.len(),
            section_end(all, k + 1) == section_end(all, end as int),
        decreases lines.len() - end,
    {
        end += 1;
    }
    if end >= lines.len() {
        return Err(SlnError::MissingEndGlobalSection(name));
    }
    *idx = end + 1;
    let section = GlobalSection {
        name,
        header: lines[k].clone(),
        lines: clone_range(lines, k + 1, end),
        footer: lines[end].clone(),
    };
    assert(section@ =~= section_at(all, k as int)->Ok_0.0);
    Ok(section)
}

/// Reads the sections from `idx` on up to the end of the global block.
pub fn parse_global(from: usize, lines: &Vec<String>) -> (r: Result<Vec<GlobalSection>, SlnError>)
    requires
        from <= lines@.len(),
    ensures
        match r {
            Ok(sections) => sections_from(text::texts(lines@), from as int, Seq::empty()) == Ok::<
                Seq<SectionView>,
                SlnFault,
            >(section_views(sections@)),
            Err(e) => sections_from(text::texts(lines@), from as int, Seq::empty()) == Err::<
                Seq<SectionView>,
                SlnFault,
            >(e@),
        },
{
    let ghost all = text::texts(lines@);
    let mut sections: Vec<GlobalSection> = Vec::new();
    let mut idx: usize = from;
    assert(section_views(sections@) =~= Seq::empty());
    while idx < lines.len()
        invariant
            all == text::texts(lines@),
            idx <= lines@.len(),
            sections_from(all, from as int, Seq::empty()) == sections_from(
                all,
                idx as int,
                section_views(sections@),
            ),
        decreases lines.len() - idx,
    {
        let start = text::trim_start(lines[idx].as_str());
        if text::starts_with(start.as_str(), "GlobalSection(") {
            let ghost before = sections@;
            match parse_global_section(&mut idx, lines) {
                Ok(section) => {
                    sections.push(section);
                    assert(section_views(sections@) =~= section_views(before).push(section@));
                },
                Err(e) => {
                    return Err(e);
                },
            }
        } else if text::same_text(start.as_str(), "EndGlobal") {
            return Ok(sections);
        } else {
            idx += 1;
        }
    }
    Ok(sections)
}

/// The solution that a text holds. Every project is taken for a file: see
/// [`SlnData::mark_files`].
pub fn parse_sln(content: &str) -> (r: Result<SlnData, SlnError>)
    ensures
        match r {
            Ok(sln) => sln_of(content@) == Ok::<SlnView, SlnFault>(sln@),
            Err(e) => sln_of(content@) == Err::<SlnView, SlnFault>(e@),
        },
{
    let newline = if text::contains(content, "\r\n") {
        "\r\n".to_owned()
    } else {
        "\n".to_owned()
    };
    let lines = text::lines(content);
    let ghost all = text::texts(lines@);
    let mut header: Vec<String> = Vec::new();
    let mut projects: Vec<ProjectBlock> = Vec::new();
    let mut idx: usize = 0;
    assert(text::texts(header@) =~= Seq::empty());
    assert(project_views(projects@) =~= Seq::empty());
    while idx < lines.len()
        invariant
            all == text::texts(lines@),
            idx <= lines@.len(),
            newline@ == newline_of(content@),
            sln_of(content@) == sln_from(
                all,
                idx as int,
                text::texts(header@),
                project_views(projects@),
                newline@,
            ),
        decreases lines.len() - idx,
    {
        let start = text::trim_start(lines[idx].as_str());
        if text::starts_with(start.as_str(), "Project(") {
            let ghost before = projects@;
            let ghost k = idx as int;
            proof {
                lemma_project_end(all, k);
            }
            match parse_project(&mut idx, &lines) {
                Ok(project) => {
                    projects.push(project);
                    assert(project_views(projects@) =~= project_views(before).push(project@));
                },
                Err(e) => {
                    return Err(e);
                },
            }
        } else if text::same_text(start.as_str(), "Global") {
            return match parse_global(idx, &lines) {
                Ok(global_sections) => Ok(SlnData { header, projects, global_sections, newline }),
                Err(e) => Err(e),
            };
        } else {
            let ghost before = header@;
            header.push(lines[idx].clone());
            assert(text::texts(header@) =~= text::texts(before).push(all[idx as int]));
            idx += 1;
        }
    }
    Err(SlnError::MissingGlobal)
}

/// The first line of a project.
pub open spec fn project_line(p: ProjectView) -> Seq<char> {
    "Project(\""@ + p.first_guid + "\") = \""@ + p.name + "\", \""@ + p.path + "\", \""@ + p.guid
        + "\""@
}

/// The lines of the projects.
pub open spec fn project_lines(projects: Seq<ProjectView>) -> Seq<Seq<char>>
    decreases projects.len(),
{
    if projects.len() == 0 {
        Seq::empty()
    } else {
        let p = projects.last();
        (project_lines(projects.drop_last()).push(project_line(p)) + p.section).push("EndProject"@)
    }
}

/// The lines of the sections.
pub open spec fn section_lines(sections: Seq<SectionView>) -> Seq<Seq<char>>
    decreases sections.len(),
{
    if sections.len() == 0 {
        Seq::empty()
    } else {
        let s = sections.last();
        (section_lines(sections.drop_last()).push(s.header) + s.lines).push(s.footer)
    }
}

/// The lines of a solution.
pub open spec fn sln_lines(sln: SlnView) -> Seq<Seq<char>> {
    ((sln.header + project_lines(sln.projects)).push("Global"@) + section_lines(
        sln.sections,
    )).push("EndGlobal"@)
}

/// The text of a solution: its lines, each with the line ending.
pub open spec fn sln_text(sln: SlnView) -> Seq<char> {
    text::join_of(sln_lines(sln), sln.newline) + sln.newline
}

/// The first line of a project.
fn write_project_line(p: &ProjectBlock) -> (r: String)
    ensures
        r@ == project_line(p@),
{
    let mut line = "Project(\"".to_owned();
    line.append(p.first_guid.as_str());
    line.append("\") = \"");
    line.append(p.name.as_str());
    line.append("\", \"");
    line.append(p.project_path.as_str());
    line.append("\", \"");
    line.append(p.guid.as_str());
    line.append("\"");
    line
}

/// The text of a solution.
pub fn build_sln_content(sln: &SlnData) -> (r: String)
    ensures
        r@ == sln_text(sln@),
{
    let mut out: Vec<String> = text::clone_texts(&sln.header);
    let ghost start = text::texts(out@);
    assert(start + project_lines(sln@.projects.take(0)) =~= start);
    for i in 0..sln.projects.len()
        invariant
            text::texts(out@) == start + project_lines(sln@.projects.take(i as int)),
    {
        let ghost before = text::texts(out@);
        let p = &sln.projects[i];
        text::push_text(&mut out, write_project_line(p));
        text::append_texts(&mut out, &p.project_section);
        text::push_text(&mut out, "EndProject".to_owned());
        proof {
            let upto = sln@.projects.take(i + 1);
            assert(upto.drop_last() =~= sln@.projects.take(i as int));
            assert(upto.last() == p@);
            assert(start + (project_lines(upto.drop_last()).push(project_line(p@))
                + p@.section).push("EndProject"@) =~= text::texts(out@));
        }
    }
    assert(sln@.projects.take(sln.projects@.len() as int) =~= sln@.projects);
    text::push_text(&mut out, "Global".to_owned());
    let ghost middle = text::texts(out@);
    assert(middle + section_lines(sln@.sections.take(0)) =~= middle);
    for i in 0..sln.global_sections.len()
        invariant
            text::texts(out@) == middle + section_lines(sln@.sections.take(i as int)),
    {
        let ghost before = text::texts(out@);
        let section = &sln.global_sections[i];
        text::push_text(&mut out, section.header.clone());
        text::append_texts(&mut out, &section.lines);
        text::push_text(&mut out, section.footer.clone());
        proof {
            let upto = sln@.sections.take(i + 1);
            assert(upto.drop_last() =~= sln@.sections.take(i as int));
            assert(upto.last() == section@);
            assert(middle + (section_lines(upto.drop_last()).push(section@.header)
                + section@.lines).push(section@.footer) =~= text::texts(out@));
        }
    }
    assert(sln@.sections.take(sln.global_sections@.len() as int) =~= sln@.sections);
    text::push_text(&mut out, "EndGlobal".to_owned());
    let mut content = text::join(&out, sln.newline.as_str());
    content.append(sln.newline.as_str());
    content
}

impl ProjectBlock {
    /// A copy of the project.
    pub fn copy(&self) -> (r: Self)
        ensures
            r@ == self@,
    {
        let r = ProjectBlock {
            first_guid: self.first_guid.clone(),
            name: self.name.clone(),
            guid: self.guid.clone(),
            project_path: self.project_path.clone(),
            project_section: text::clone_texts(&self.project_section),
            is_file: self.is_file,
        };
        assert(r@ =~= self@);
        r
    }
}

/// A project as a file, or as a folder.
pub open spec fn with_kind(p: ProjectView, is_file: bool) -> ProjectView {
    ProjectView { is_file, ..p }
}

/// The projects, each with its kind.
pub open spec fn with_kinds(projects: Seq<ProjectView>, files: Seq<bool>) -> Seq<ProjectView> {
    Seq::new(projects.len(), |i: int| with_kind(projects[i], files[i]))
}

impl SlnData {
    /// Notes for each project whether its path leads to a file.
    pub fn mark_files(&mut self, files: &Vec<bool>)
        requires
            files@.len() == old(self).projects@.len(),
        ensures
            final(self)@ == (SlnView {
                projects: with_kinds(old(self)@.projects, files@),
                ..old(self)@
            }),
    {
        let ghost start = self@;
        let mut projects: Vec<ProjectBlock> = Vec::new();
        for i in 0..self.projects.len()
            invariant
                start == self@,
                files@.len() == self.projects@.len(),
                project_views(projects@) == with_kinds(start.projects, files@).take(i as int),
        {
            let ghost before = projects@;
            let mut project = self.projects[i].copy();
            project.is_file = files[i];
            projects.push(project);
            proof {
                assert(project@ =~= with_kind(start.projects[i as int], files@[i as int]));
                assert(project_views(projects@) =~= project_views(before).push(project@));
                assert(project_views(projects@) =~= with_kinds(start.projects, files@).take(
                    i + 1,
                ));
            }
        }
        self.projects = projects;
        assert(with_kinds(start.projects, files@).take(start.projects.len() as int) =~= with_kinds(
            start.projects,
            files@,
        ));
    }
}

/// A copy of an error.
pub fn copy_error(e: &SlnError) -> (r: SlnError)
    ensures
        r@ == e@,
{
    match e {
        SlnError::Missing => SlnError::Missing,
        SlnError::Unreadable => SlnError::Unreadable,
        SlnError::NoFirstGuid(s) => SlnError::NoFirstGuid(s.clone()),
        SlnError::NoGuid(s) => SlnError::NoGuid(s.clone()),
        SlnError::NoName(s) => SlnError::NoName(s.clone()),
        SlnError::NoPath(s) => SlnError::NoPath(s.clone()),
        SlnError::MissingEndProject(s) => SlnError::MissingEndProject(s.clone()),
        SlnError::MissingEndGlobalSection(s) => SlnError::MissingEndGlobalSection(s.clone()),
        SlnError::MissingGlobal => SlnError::MissingGlobal,
        SlnError::CyclicFolders => SlnError::CyclicFolders,
        SlnError::NoRelativePath(s) => SlnError::NoRelativePath(s.clone()),
        SlnError::NoConfigurationSection => SlnError::NoConfigurationSection,
        SlnError::NoNestingSection => SlnError::NoNestingSection,
    }
}

} // verus!
