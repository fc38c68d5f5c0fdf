//! Merging the same solutions a second time into the file that the first merging wrote.

use crate::paths;
use crate::sln::{self, ProjectView, SectionView, SlnFault, SlnView};
use crate::sln_merge_again;
use crate::sln_merge_kit::{self, Added, MergeState, SourceView};
use crate::sln_round_trip;
use crate::text;
use vstd::prelude::*;

verus! {

/// The solution as it is read from a text, with every project taken for a file.
pub open spec fn as_read(solution: SlnView) -> SlnView {
    SlnView {
        projects: sln::with_kinds(
            solution.projects,
            Seq::new(solution.projects.len(), |i: int| true),
        ),
        ..solution
    }
}

spec fn are_one_line(lines: Seq<Seq<char>>) -> bool {
    forall|i: int| 0 <= i < lines.len() ==> sln_round_trip::is_one_line(#[trigger] lines[i])
}

spec fn is_good_project(p: ProjectView) -> bool {
    &&& sln_round_trip::is_sound_project(sln::with_kind(p, true))
    &&& sln_round_trip::is_one_line(sln::project_line(p))
    &&& are_one_line(p.section)
}

spec fn is_good_section(s: SectionView) -> bool {
    &&& sln_round_trip::is_sound_section(s)
    &&& sln_round_trip::is_one_line(s.header)
    &&& sln_round_trip::is_one_line(s.footer)
    &&& are_one_line(s.lines)
}

spec fn is_good(solution: SlnView) -> bool {
    &&& solution.newline == "\n"@ || solution.newline == "\r\n"@
    &&& forall|i: int|
        0 <= i < solution.header.len() ==> sln_round_trip::is_header_line(
            #[trigger] solution.header[i],
        )
    &&& are_one_line(solution.header)
    &&& forall|i: int|
        0 <= i < solution.projects.len() ==> is_good_project(#[trigger] solution.projects[i])
    &&& forall|i: int|
        0 <= i < solution.sections.len() ==> is_good_section(#[trigger] solution.sections[i])
}

proof fn lemma_one_line_both(a: Seq<Seq<char>>, b: Seq<Seq<char>>)
    ensures
        are_one_line(a + b) <==> are_one_line(a) && are_one_line(b),
{
    let all = a + b;
    if are_one_line(all) {
        assert forall|i: int| 0 <= i < a.len() implies sln_round_trip::is_one_line(
            #[trigger] a[i],
        ) by {
            assert(all[i] == a[i]);
        }
        assert forall|i: int| 0 <= i < b.len() implies sln_round_trip::is_one_line(
            #[trigger] b[i],
        ) by {
            assert(all[a.len() + i] == b[i]);
        }
    }
}

proof fn lemma_one_line_push(a: Seq<Seq<char>>, line: Seq<char>)
    ensures
        are_one_line(a.push(line)) <==> are_one_line(a) && sln_round_trip::is_one_line(line),
{
    assert(a.push(line) =~= a + seq![line]);
    lemma_one_line_both(a, seq![line]);
    if are_one_line(seq![line]) {
        assert(sln_round_trip::is_one_line(seq![line][0]));
    }
}

proof fn lemma_project_lines(projects: Seq<ProjectView>)
    ensures
        are_one_line(sln::project_lines(projects)) <==> forall|i: int|
            0 <= i < projects.len() ==> sln_round_trip::is_one_line(
                sln::project_line(#[trigger] projects[i]),
            ) && are_one_line(projects[i].section),
    decreases projects.len(),
{
    reveal_strlit("EndProject");
    if projects.len() > 0 {
        let front = projects.drop_last();
        let p = projects.last();
        let lines = sln::project_lines(front);
        let line = sln::project_line(p);
        lemma_project_lines(front);
        lemma_one_line_push(lines, line);
        lemma_one_line_both(lines.push(line), p.section);
        lemma_one_line_push(lines.push(line) + p.section, "EndProject"@);
        assert(projects[projects.len() - 1] == p);
        assert(forall|i: int| 0 <= i < front.len() ==> #[trigger] projects[i] == front[i]);
        assert(forall|i: int| 0 <= i < front.len() ==> #[trigger] front[i] == projects[i]);
    }
}

proof fn lemma_section_lines(sections: Seq<SectionView>)
    ensures
        are_one_line(sln::section_lines(sections)) <==> forall|i: int|
            0 <= i < sections.len() ==> sln_round_trip::is_one_line(
                (#[trigger] sections[i]).header,
            ) && sln_round_trip::is_one_line(sections[i].footer) && are_one_line(
                sections[i].lines,
            ),
    decreases sections.len(),
{
    if sections.len() > 0 {
        let front = sections.drop_last();
        let s = sections.last();
        let lines = sln::section_lines(front);
        lemma_section_lines(front);
        lemma_one_line_push(lines, s.header);
        lemma_one_line_both(lines.push(s.header), s.lines);
        lemma_one_line_push(lines.push(s.header) + s.lines, s.footer);
        assert(sections[sections.len() - 1] == s);
        assert(forall|i: int| 0 <= i < front.len() ==> #[trigger] sections[i] == front[i]);
        assert(forall|i: int| 0 <= i < front.len() ==> #[trigger] front[i] == sections[i]);
    }
}

proof fn lemma_same_lines(projects: Seq<ProjectView>, others: Seq<ProjectView>)
    requires
        projects.len() == others.len(),
        forall|i: int|
            0 <= i < projects.len() ==> sln::with_kind(#[trigger] projects[i], true)
                == sln::with_kind(others[i], true),
    ensures
        sln::project_lines(projects) == sln::project_lines(others),
    decreases projects.len(),
{
    if projects.len() > 0 {
        let a = projects.drop_last();
        let b = others.drop_last();
        assert forall|i: int| 0 <= i < a.len() implies sln::with_kind(#[trigger] a[i], true)
            == sln::with_kind(b[i], true) by {
            assert(a[i] == projects[i]);
        }
        lemma_same_lines(a, b);
        let last = projects.len() - 1;
        assert(sln::with_kind(projects[last], true) == sln::with_kind(others[last], true));
        let x = sln::with_kind(projects[last], true);
        assert(sln::project_line(projects[last]) == sln::project_line(x));
        assert(sln::project_line(others[last]) == sln::project_line(x));
        assert(projects[last].section == x.section);
        assert(others[last].section == x.section);
    }
}

proof fn lemma_text_as_read(solution: SlnView)
    ensures
        sln::sln_lines(as_read(solution)) == sln::sln_lines(solution),
        sln::sln_text(as_read(solution)) == sln::sln_text(solution),
{
    lemma_same_lines(as_read(solution).projects, solution.projects);
}

proof fn lemma_good_is_sound(solution: SlnView)
    ensures
        is_good(solution) <==> sln_round_trip::is_sound(as_read(solution)),
{
    let read = as_read(solution);
    let lines = sln::sln_lines(solution);
    reveal_strlit("Global");
    reveal_strlit("EndGlobal");
    lemma_text_as_read(solution);
    lemma_project_lines(solution.projects);
    lemma_section_lines(solution.sections);
    let first = solution.header + sln::project_lines(solution.projects);
    lemma_one_line_both(solution.header, sln::project_lines(solution.projects));
    lemma_one_line_push(first, "Global"@);
    lemma_one_line_both(first.push("Global"@), sln::section_lines(solution.sections));
    lemma_one_line_push(
        first.push("Global"@) + sln::section_lines(solution.sections),
        "EndGlobal"@,
    );
    if sln_round_trip::is_sound(read) {
        assert(are_one_line(lines));
        assert forall|i: int| 0 <= i < solution.projects.len() implies is_good_project(
            #[trigger] solution.projects[i],
        ) by {
            assert(sln_round_trip::is_sound_project(read.projects[i]));
        }
    }
    if is_good(solution) {
        assert(are_one_line(lines));
        assert forall|i: int| 0 <= i < read.projects.len() implies sln_round_trip::is_sound_project(
            #[trigger] read.projects[i],
        ) by {
            assert(is_good_project(solution.projects[i]));
        }
    }
}

proof fn lemma_lacks_both(a: Seq<char>, b: Seq<char>, c: char)
    ensures
        sln_round_trip::lacks(a + b, c) <==> sln_round_trip::lacks(a, c) && sln_round_trip::lacks(
            b,
            c,
        ),
{
    let all = a + b;
    if sln_round_trip::lacks(all, c) {
        assert forall|i: int| 0 <= i < a.len() implies #[trigger] a[i] != c by {
            assert(all[i] == a[i]);
        }
        assert forall|i: int| 0 <= i < b.len() implies #[trigger] b[i] != c by {
            assert(all[a.len() + i] == b[i]);
        }
    }
}

proof fn lemma_text_both(a: Seq<char>, b: Seq<char>)
    ensures
        sln_round_trip::is_one_line(a + b) <==> sln_round_trip::is_one_line(a)
            && sln_round_trip::is_one_line(b),
{
    lemma_lacks_both(a, b, '\n');
    lemma_lacks_both(a, b, '\r');
}

proof fn lemma_project_line(p: ProjectView)
    ensures
        sln_round_trip::is_one_line(sln::project_line(p)) <==> sln_round_trip::is_one_line(
            p.first_guid,
        ) && sln_round_trip::is_one_line(p.name) && sln_round_trip::is_one_line(p.path)
            && sln_round_trip::is_one_line(p.guid),
{
    reveal_strlit("Project(\"");
    reveal_strlit("\") = \"");
    reveal_strlit("\", \"");
    reveal_strlit("\"");
    let a = "Project(\""@;
    let b = "\") = \""@;
    let c = "\", \""@;
    let d = "\""@;
    lemma_text_both(a, p.first_guid);
    lemma_text_both(a + p.first_guid, b);
    lemma_text_both(a + p.first_guid + b, p.name);
    lemma_text_both(a + p.first_guid + b + p.name, c);
    lemma_text_both(a + p.first_guid + b + p.name + c, p.path);
    lemma_text_both(a + p.first_guid + b + p.name + c + p.path, c);
    lemma_text_both(a + p.first_guid + b + p.name + c + p.path + c, p.guid);
    lemma_text_both(a + p.first_guid + b + p.name + c + p.path + c + p.guid, d);
}

/// A text that can stand in a project's line as its name or path.
pub open spec fn is_writable(s: Seq<char>) -> bool {
    sln_round_trip::is_field(s) && sln_round_trip::is_one_line(s)
}

/// An identifier that can stand in a project's line.
spec fn is_writable_id(g: Seq<char>) -> bool {
    &&& sln_round_trip::is_braced(g)
    &&& sln_round_trip::lacks(g.skip(1), '{')
    &&& sln_round_trip::is_one_line(g)
}

/// A type identifier that can stand in a project's line.
spec fn is_writable_type(g: Seq<char>) -> bool {
    &&& sln_round_trip::is_braced(g)
    &&& sln_round_trip::lacks(g, '=')
    &&& sln_round_trip::is_one_line(g)
}

/// Lines that can stand in a project.
spec fn is_good_body(section: Seq<Seq<char>>) -> bool {
    are_one_line(section) && forall|i: int|
        0 <= i < section.len() ==> text::trim_of(#[trigger] section[i]) != "EndProject"@
}

proof fn lemma_good_project(p: ProjectView)
    ensures
        is_good_project(p) <==> is_writable_type(p.first_guid) && is_writable(p.name)
            && is_writable(p.path) && is_writable_id(p.guid) && is_good_body(p.section),
{
    lemma_project_line(p);
    let q = sln::with_kind(p, true);
    if is_good_project(p) {
        assert forall|i: int| 0 <= i < p.section.len() implies text::trim_of(
            #[trigger] p.section[i],
        ) != "EndProject"@ by {
            assert(q.section[i] == p.section[i]);
        }
    }
    if is_good_body(p.section) {
        assert forall|i: int| 0 <= i < q.section.len() implies text::trim_of(
            #[trigger] q.section[i],
        ) != "EndProject"@ by {
            assert(q.section[i] == p.section[i]);
        }
    }
}

proof fn lemma_added_are_good(
    style: char,
    source: SlnView,
    folder: Seq<char>,
    relative: Seq<char>,
    first_guid: Seq<char>,
    start: Added,
    n: int,
)
    requires
        0 <= n <= source.projects.len(),
        sln_merge_kit::add_projects(style, source, folder, relative, first_guid, start, n) is Some,
        is_writable_type(first_guid),
        forall|i: int|
            0 <= i < start.projects.len() ==> is_good_project(#[trigger] start.projects[i]),
        forall|i: int|
            0 <= i < source.projects.len() ==> is_good_project(#[trigger] source.projects[i]),
        forall|i: int|
            0 <= i < source.projects.len() && (#[trigger] source.projects[i]).is_file
                ==> is_writable(paths::joined_path(style, relative, source.projects[i].path)),
    ensures
        ({
            let added = sln_merge_kit::add_projects(
                style,
                source,
                folder,
                relative,
                first_guid,
                start,
                n,
            )->0;
            forall|i: int|
                0 <= i < added.projects.len() ==> is_good_project(#[trigger] added.projects[i])
        }),
    decreases n,
{
    if n > 0 {
        lemma_added_are_good(style, source, folder, relative, first_guid, start, n - 1);
        let p = source.projects[n - 1];
        lemma_good_project(p);
        if p.is_file {
            let path = paths::joined_path(style, relative, p.path);
            lemma_good_project(ProjectView { path, ..p });
        } else {
            lemma_good_project(ProjectView { first_guid, ..p });
        }
    }
}

/// A line that can stand in a section.
spec fn is_good_line(line: Seq<char>) -> bool {
    sln_round_trip::is_one_line(line) && !text::begins_with(
        text::trim_start_of(line),
        "EndGlobalSection"@,
    )
}

spec fn are_good_lines(lines: Seq<Seq<char>>) -> bool {
    forall|i: int| 0 <= i < lines.len() ==> is_good_line(#[trigger] lines[i])
}

proof fn lemma_lines_about_are_good(lines: Seq<Seq<char>>, guids: Seq<Seq<char>>)
    requires
        are_good_lines(lines),
    ensures
        are_good_lines(sln_merge_kit::lines_about(lines, guids)),
    decreases lines.len(),
{
    if lines.len() > 0 {
        assert(are_good_lines(lines.drop_last()));
        assert(is_good_line(lines[lines.len() - 1]));
        lemma_lines_about_are_good(lines.drop_last(), guids);
    }
}

proof fn lemma_nest_lines_are_good(lines: Seq<Seq<char>>, guids: Seq<Seq<char>>)
    requires
        are_good_lines(lines),
    ensures
        are_good_lines(sln_merge_kit::nest_lines(lines, guids).0),
    decreases lines.len(),
{
    if lines.len() > 0 {
        assert(are_good_lines(lines.drop_last()));
        assert(is_good_line(lines[lines.len() - 1]));
        lemma_nest_lines_are_good(lines.drop_last(), guids);
    }
}

proof fn lemma_left_are_held(lines: Seq<Seq<char>>, guids: Seq<Seq<char>>)
    ensures
        forall|g: Seq<char>| #[trigger]
            sln_merge_kit::nest_lines(lines, guids).1.contains(g) ==> guids.contains(g),
    decreases lines.len(),
{
    if lines.len() > 0 {
        lemma_left_are_held(lines.drop_last(), guids);
        let left = sln_merge_kit::nest_lines(lines.drop_last(), guids).1;
        if let Some(g) = sln::first_guid_in(lines.last()) {
            sln_merge_again::lemma_without_text(left, g);
        }
    }
}

proof fn lemma_leading_space_is_one_line(s: Seq<char>)
    requires
        sln_round_trip::is_one_line(s),
    ensures
        sln_round_trip::is_one_line(text::leading_space(s)),
    decreases s.len(),
{
    if s.len() > 0 && text::is_space(s[0]) {
        let rest = s.skip(1);
        assert forall|i: int| 0 <= i < rest.len() implies #[trigger] rest[i] != '\n' && rest[i]
            != '\r' by {
            assert(rest[i] == s[i + 1]);
        }
        lemma_leading_space_is_one_line(rest);
        lemma_text_both(seq![s[0]], text::leading_space(rest));
    }
}

proof fn lemma_indent_is_one_line(lines: Seq<Seq<char>>)
    requires
        are_good_lines(lines),
    ensures
        sln_round_trip::is_one_line(sln_merge_kit::indent_of(lines)),
{
    reveal_strlit("        ");
    if lines.len() > 0 {
        assert(is_good_line(lines[0]));
        lemma_leading_space_is_one_line(lines[0]);
    }
}

proof fn lemma_lines_under_are_good(guids: Seq<Seq<char>>, indent: Seq<char>, f: Seq<char>)
    requires
        forall|i: int| 0 <= i < guids.len() ==> is_writable_id(#[trigger] guids[i]),
        is_writable_id(f),
        sln_round_trip::is_one_line(indent),
        forall|i: int| 0 <= i < indent.len() ==> text::is_space(#[trigger] indent[i]),
    ensures
        are_good_lines(sln_merge_kit::lines_under(guids, indent, f)),
{
    reveal_strlit(" = ");
    reveal_strlit("EndGlobalSection");
    let lines = sln_merge_kit::lines_under(guids, indent, f);
    assert forall|i: int| 0 <= i < lines.len() implies is_good_line(#[trigger] lines[i]) by {
        let g = guids[i];
        lemma_text_both(indent, g);
        lemma_text_both(indent + g, " = "@);
        lemma_text_both(indent + g + " = "@, f);
        let rest = g + " = "@ + f;
        assert(lines[i] =~= indent + rest);
        assert(rest[0] == '{');
        assert(!text::is_space('{'));
        sln_merge_again::lemma_trim_start_of_spaced(indent, rest);
        if text::begins_with(rest, "EndGlobalSection"@) {
            assert(rest.take(16)[0] == "EndGlobalSection"@[0]);
        }
    }
}

proof fn lemma_good_section(s: SectionView)
    ensures
        is_good_section(s) ==> are_good_lines(s.lines),
{
    if is_good_section(s) {
        assert forall|i: int| 0 <= i < s.lines.len() implies is_good_line(
            #[trigger] s.lines[i],
        ) by {}
    }
}

proof fn lemma_section_of_good(sections: Seq<SectionView>, name: Seq<char>)
    requires
        forall|i: int| 0 <= i < sections.len() ==> is_good_section(#[trigger] sections[i]),
    ensures
        are_good_lines(sln_merge_kit::lines_of_section(sections, name)),
{
    sln_merge_kit::lemma_section_named(sections, name);
    if let Some(i) = sln_merge_kit::section_named(sections, name) {
        assert(is_good_section(sections[i]));
        lemma_good_section(sections[i]);
    }
}

proof fn lemma_with_lines_is_good(sections: Seq<SectionView>, i: int, more: Seq<Seq<char>>)
    requires
        0 <= i < sections.len(),
        forall|k: int| 0 <= k < sections.len() ==> is_good_section(#[trigger] sections[k]),
        are_good_lines(more),
    ensures
        ({
            let after = sln_merge_kit::with_lines(sections, i, sections[i].lines + more);
            forall|k: int| 0 <= k < after.len() ==> is_good_section(#[trigger] after[k])
        }),
{
    let after = sln_merge_kit::with_lines(sections, i, sections[i].lines + more);
    assert(is_good_section(sections[i]));
    let s = after[i];
    assert forall|k: int| 0 <= k < s.lines.len() implies sln_round_trip::is_one_line(
        #[trigger] s.lines[k],
    ) && !text::begins_with(text::trim_start_of(s.lines[k]), "EndGlobalSection"@) by {
        if k < sections[i].lines.len() {
            assert(s.lines[k] == sections[i].lines[k]);
        } else {
            assert(s.lines[k] == more[k - sections[i].lines.len()]);
            assert(is_good_line(more[k - sections[i].lines.len()]));
        }
    }
    assert forall|k: int| 0 <= k < after.len() implies is_good_section(#[trigger] after[k]) by {
        if k != i {
            assert(after[k] == sections[k]);
        }
    }
}

proof fn lemma_merged_sections_are_good(
    sections: Seq<SectionView>,
    source: SlnView,
    guids: Seq<Seq<char>>,
    f: Seq<char>,
)
    requires
        sln_merge_kit::merge_sections(sections, source, guids, f) is Ok,
        forall|k: int| 0 <= k < sections.len() ==> is_good_section(#[trigger] sections[k]),
        forall|k: int|
            0 <= k < source.sections.len() ==> is_good_section(#[trigger] source.sections[k]),
        forall|g: Seq<char>| #[trigger] guids.contains(g) ==> is_writable_id(g),
        is_writable_id(f),
    ensures
        ({
            let after = sln_merge_kit::merge_sections(sections, source, guids, f)->Ok_0;
            forall|k: int| 0 <= k < after.len() ==> is_good_section(#[trigger] after[k])
        }),
{
    let about = sln_merge_kit::lines_of_section(
        source.sections,
        "ProjectConfigurationPlatforms"@,
    );
    lemma_section_of_good(source.sections, "ProjectConfigurationPlatforms"@);
    lemma_section_of_good(source.sections, "NestedProjects"@);
    lemma_lines_about_are_good(about, guids);
    sln_merge_kit::lemma_section_named(sections, "ProjectConfigurationPlatforms"@);
    let c = sln_merge_kit::section_named(sections, "ProjectConfigurationPlatforms"@)->0;
    let more = sln_merge_kit::lines_about(about, guids);
    lemma_with_lines_is_good(sections, c, more);
    let configured = sln_merge_kit::with_lines(sections, c, sections[c].lines + more);
    sln_merge_kit::lemma_section_named(configured, "NestedProjects"@);
    let n = sln_merge_kit::section_named(configured, "NestedProjects"@)->0;
    let lines = sln_merge_kit::nesting_lines(source);
    let (taken, left) = sln_merge_kit::nest_lines(lines, guids);
    let indent = sln_merge_kit::indent_of(configured[n].lines);
    lemma_section_of_good(configured, "NestedProjects"@);
    lemma_nest_lines_are_good(lines, guids);
    lemma_left_are_held(lines, guids);
    lemma_indent_is_one_line(configured[n].lines);
    sln_merge_again::lemma_indent(configured[n].lines);
    assert forall|i: int| 0 <= i < left.len() implies is_writable_id(#[trigger] left[i]) by {
        assert(left.contains(left[i]));
    }
    lemma_lines_under_are_good(left, indent, f);
    let under = sln_merge_kit::lines_under(left, indent, f);
    assert(are_good_lines(taken + under));
    assert(configured[n].lines + taken + under =~= configured[n].lines + (taken + under));
    lemma_with_lines_is_good(configured, n, taken + under);
}

/// What a source brings, where it was read, can be written: it is well-formed, and its folder's
/// name and the paths of its files from the target can stand in a project's line.
pub open spec fn is_source_writable(
    style: char,
    target_path: Seq<char>,
    source: SourceView,
) -> bool {
    let folder = sln_merge_kit::source_folder(style, source.path);
    source.parsed matches Ok(data) ==> {
        &&& sln_round_trip::is_sound(as_read(data))
        &&& is_writable(folder)
        &&& sln_merge_kit::is_uuid(
            sln_merge_kit::named_uuid(sln_merge_kit::DNS_NAMESPACE, folder),
            true,
        )
        &&& forall|j: int|
            0 <= j < data.projects.len() && (#[trigger] data.projects[j]).is_file ==> is_writable(
                paths::joined_path(
                    style,
                    sln_merge_again::path_from(style, target_path, source),
                    data.projects[j].path,
                ),
            )
    }
}

proof fn lemma_guids_are_held(
    style: char,
    source: SlnView,
    folder: Seq<char>,
    relative: Seq<char>,
    first_guid: Seq<char>,
    start: Added,
    n: int,
)
    requires
        0 <= n <= source.projects.len(),
        start.guids.len() == 0,
        sln_merge_kit::add_projects(style, source, folder, relative, first_guid, start, n) is Some,
        forall|i: int|
            0 <= i < source.projects.len() ==> is_good_project(#[trigger] source.projects[i]),
    ensures
        ({
            let added = sln_merge_kit::add_projects(
                style,
                source,
                folder,
                relative,
                first_guid,
                start,
                n,
            )->0;
            forall|i: int| 0 <= i < added.guids.len() ==> is_writable_id(#[trigger] added.guids[i])
        }),
    decreases n,
{
    if n > 0 {
        lemma_guids_are_held(style, source, folder, relative, first_guid, start, n - 1);
        assert(is_good_project(source.projects[n - 1]));
        lemma_good_project(source.projects[n - 1]);
    }
}

proof fn lemma_merge_is_good(
    style: char,
    target_path: Seq<char>,
    first_guid: Seq<char>,
    sources: Seq<SourceView>,
    start: MergeState,
    n: int,
)
    requires
        0 <= n <= sources.len(),
        is_good(start.target),
        is_writable_type(first_guid),
        forall|i: int|
            0 <= i < sources.len() ==> is_source_writable(style, target_path, #[trigger] sources[i]),
        sln_merge_kit::merge_all(
            style,
            sln_merge_kit::directory_of(style, target_path),
            first_guid,
            sources,
            start,
            n,
        ) is Ok,
    ensures
        is_good(
            sln_merge_kit::merge_all(
                style,
                sln_merge_kit::directory_of(style, target_path),
                first_guid,
                sources,
                start,
                n,
            )->Ok_0.target,
        ),
    decreases n,
{
    let dir = sln_merge_kit::directory_of(style, target_path);
    if n > 0 {
        lemma_merge_is_good(style, target_path, first_guid, sources, start, n - 1);
        let state = sln_merge_kit::merge_all(style, dir, first_guid, sources, start, n - 1)->Ok_0;
        let end = sln_merge_kit::merge_all(style, dir, first_guid, sources, start, n)->Ok_0;
        let source = sources[n - 1];
        assert(is_source_writable(style, target_path, source));
        if let Ok(data) = source.parsed {
            let folder = sln_merge_kit::source_folder(style, source.path);
            let relative = sln_merge_again::path_from(style, target_path, source);
            let count = data.projects.len() as int;
            let project = sln_merge_kit::folder_project(folder, first_guid);
            let first = Added {
                projects: if sln_merge_kit::is_known(style, state.known, folder) {
                    state.target.projects
                } else {
                    state.target.projects.push(project)
                },
                known: state.known,
                guids: Seq::empty(),
            };
            sln_merge_again::lemma_folder_id(folder);
            lemma_good_is_sound(data);
            lemma_good_project(project);
            lemma_added_are_good(style, data, folder, relative, first_guid, first, count);
            lemma_guids_are_held(style, data, folder, relative, first_guid, first, count);
            let added = sln_merge_kit::add_projects(
                style,
                data,
                folder,
                relative,
                first_guid,
                first,
                count,
            )->0;
            assert forall|g: Seq<char>| #[trigger] added.guids.contains(g) implies is_writable_id(
                g,
            ) by {
                assert(is_writable_id(added.guids[added.guids.index_of(g)]));
            }
            lemma_merged_sections_are_good(
                state.target.sections,
                data,
                added.guids,
                sln_merge_kit::folder_guid(folder),
            );
            assert(end.target.projects == added.projects);
        }
    }
}

proof fn lemma_folder_type_is_held(projects: Seq<ProjectView>)
    requires
        sln_merge_kit::folder_type(projects) is Some,
        forall|i: int| 0 <= i < projects.len() ==> is_good_project(#[trigger] projects[i]),
    ensures
        is_writable_type(sln_merge_kit::folder_type(projects)->0),
    decreases projects.len(),
{
    let front = projects.drop_last();
    assert(forall|i: int| 0 <= i < front.len() ==> #[trigger] front[i] == projects[i]);
    if sln_merge_kit::folder_type(front) is Some {
        lemma_folder_type_is_held(front);
    } else {
        assert(is_good_project(projects[projects.len() - 1]));
        lemma_good_project(projects.last());
    }
}

/// Merging the same solutions a second time leaves the target's file byte for byte as the first
/// merging left it: the solution that is read from the text that the first merging came to, with
/// the same of its projects found to be files, merges into that text, so nothing is written.
pub proof fn law_merged_file_is_left_alone(
    style: char,
    target_path: Seq<char>,
    target: SlnView,
    sources: Seq<SourceView>,
    fresh: Seq<char>,
    again: Seq<char>,
)
    requires
        sln_merge_again::are_separate(style, target_path, target, sources),
        sln_round_trip::is_sound(as_read(target)),
        sln_merge_kit::folder_type(target.projects) is Some,
        forall|i: int|
            0 <= i < sources.len() ==> is_source_writable(style, target_path, #[trigger] sources[i]),
    ensures
        sln_merge_kit::merged(style, target_path, target, sources, fresh) matches Ok(once) ==> {
            let content = sln::sln_text(once);
            let files = Seq::new(once.projects.len(), |i: int| once.projects[i].is_file);
            sln::sln_of(content) matches Ok(read) && sln_merge_kit::rewritten(
                sln_merge_kit::merged(
                    style,
                    target_path,
                    SlnView { projects: sln::with_kinds(read.projects, files), ..read },
                    sources,
                    again,
                ),
                content,
            ) == Ok::<Option<Seq<char>>, SlnFault>(None)
        },
{
    sln_merge_again::law_merging_twice_changes_nothing(
        style,
        target_path,
        target,
        sources,
        fresh,
        again,
    );
    if let Ok(once) = sln_merge_kit::merged(style, target_path, target, sources, fresh) {
        let known = sln_merge_kit::known_paths(style, target, target.projects.len() as int)->0;
        lemma_good_is_sound(target);
        lemma_folder_type_is_held(target.projects);
        lemma_merge_is_good(
            style,
            target_path,
            sln_merge_kit::folder_type(target.projects)->0,
            sources,
            MergeState { target, known },
            sources.len() as int,
        );
        lemma_good_is_sound(once);
        lemma_text_as_read(once);
        sln_round_trip::law_what_is_read_is_written_back(as_read(once));
        let files = Seq::new(once.projects.len(), |i: int| once.projects[i].is_file);
        assert(sln::with_kinds(as_read(once).projects, files) =~= once.projects);
    }
}

} // verus!
