//! What holds of the text of solutions: how it is read and written, block by block.

use crate::sln::{self, ProjectView, SectionView, SlnData, SlnError, SlnFault, SlnView};
use crate::text;
use crate::text_laws;
use vstd::prelude::*;

verus! {

/// The lines of a project: its first line, its section, and the line that ends it.
pub open spec fn project_block(p: ProjectView) -> Seq<Seq<char>> {
    seq![
        "Project(\""@ + p.first_guid + "\") = \""@ + p.name + "\", \""@ + p.path + "\", \""@
            + p.guid + "\""@,
    ] + p.section + seq!["EndProject"@]
}

/// The lines of a section of the global block.
pub open spec fn section_block(s: SectionView) -> Seq<Seq<char>> {
    seq![s.header] + s.lines + seq![s.footer]
}

proof fn lemma_project_blocks(projects: Seq<ProjectView>)
    ensures
        sln::project_lines(projects) == projects.map_values(
            |p: ProjectView| project_block(p),
        ).flatten_alt(),
    decreases projects.len(),
{
    let block = |p: ProjectView| project_block(p);
    let all = projects.map_values(block);
    if projects.len() > 0 {
        lemma_project_blocks(projects.drop_last());
        assert(all.drop_last() =~= projects.drop_last().map_values(block));
        assert(all.last() == project_block(projects.last()));
        let rest = sln::project_lines(projects.drop_last());
        assert(sln::project_lines(projects) =~= rest + project_block(projects.last()));
    }
}

proof fn lemma_section_blocks(sections: Seq<SectionView>)
    ensures
        sln::section_lines(sections) == sections.map_values(
            |s: SectionView| section_block(s),
        ).flatten_alt(),
    decreases sections.len(),
{
    let block = |s: SectionView| section_block(s);
    let all = sections.map_values(block);
    if sections.len() > 0 {
        lemma_section_blocks(sections.drop_last());
        assert(all.drop_last() =~= sections.drop_last().map_values(block));
        assert(all.last() == section_block(sections.last()));
        let rest = sln::section_lines(sections.drop_last());
        assert(sln::section_lines(sections) =~= rest + section_block(sections.last()));
    }
}

proof fn lemma_ended_lines(lines: Seq<Seq<char>>, newline: Seq<char>)
    requires
        lines.len() > 0,
    ensures
        text::join_of(lines, newline) + newline == lines.map_values(
            |l: Seq<char>| l + newline,
        ).flatten_alt(),
    decreases lines.len(),
{
    let end = |l: Seq<char>| l + newline;
    let all = lines.map_values(end);
    let front = lines.drop_last();
    assert(all.drop_last() =~= front.map_values(end));
    assert(all.last() == lines.last() + newline);
    if lines.len() == 1 {
        assert(lines =~= seq![lines[0]]);
        assert(all.drop_last() =~= Seq::empty());
        text_laws::law_joining(front, front, newline, lines[0]);
        assert(all.flatten_alt() =~= lines[0] + newline) by {
            assert(Seq::<Seq<char>>::empty().flatten_alt() =~= Seq::empty());
            assert(all.drop_last().flatten_alt() =~= Seq::<char>::empty());
        }
    } else {
        lemma_ended_lines(front, newline);
        text_laws::law_joining(front, seq![lines.last()], newline, lines.last());
        assert(front + seq![lines.last()] =~= lines);
        assert(all.flatten_alt() == all.drop_last().flatten_alt() + all.last());
        assert(text::join_of(front, newline) + newline + lines.last() + newline
            =~= text::join_of(front, newline) + newline + (lines.last() + newline));
    }
}

/// A solution is written as its header, its projects and its global block with all sections, in
/// their order and each line with the ending of the solution.
pub proof fn law_solutions_are_written(solution: &SlnData, r: String)
    requires
        call_ensures(sln::build_sln_content, (solution,), r),
    ensures
        ({
            let lines = solution@.header + solution@.projects.map_values(
                |p: ProjectView| project_block(p),
            ).flatten_alt() + seq!["Global"@] + solution@.sections.map_values(
                |s: SectionView| section_block(s),
            ).flatten_alt() + seq!["EndGlobal"@];
            r@ == lines.map_values(|l: Seq<char>| l + solution@.newline).flatten_alt()
        }),
{
    let view = solution@;
    let a = sln::project_lines(view.projects);
    let b = sln::section_lines(view.sections);
    lemma_project_blocks(view.projects);
    lemma_section_blocks(view.sections);
    let lines = view.header + a + seq!["Global"@] + b + seq!["EndGlobal"@];
    assert(sln::sln_lines(view) =~= lines);
    lemma_ended_lines(lines, view.newline);
}

proof fn lemma_project_end_shift(pre: Seq<Seq<char>>, lines: Seq<Seq<char>>, k: int)
    requires
        0 <= k <= lines.len(),
    ensures
        sln::project_end(pre + lines, pre.len() + k) == pre.len() + sln::project_end(lines, k),
        k <= sln::project_end(lines, k) <= lines.len(),
    decreases lines.len() - k,
{
    if k < lines.len() {
        assert((pre + lines)[pre.len() + k] == lines[k]);
        if text::trim_of(lines[k]) != "EndProject"@ {
            lemma_project_end_shift(pre, lines, k + 1);
        }
    }
}

proof fn lemma_section_end_shift(pre: Seq<Seq<char>>, lines: Seq<Seq<char>>, k: int)
    requires
        0 <= k <= lines.len(),
    ensures
        sln::section_end(pre + lines, pre.len() + k) == pre.len() + sln::section_end(lines, k),
        k <= sln::section_end(lines, k) <= lines.len(),
    decreases lines.len() - k,
{
    if k < lines.len() {
        assert((pre + lines)[pre.len() + k] == lines[k]);
        if !text::begins_with(text::trim_start_of(lines[k]), "EndGlobalSection"@) {
            lemma_section_end_shift(pre, lines, k + 1);
        }
    }
}

proof fn lemma_project_at_shift(pre: Seq<Seq<char>>, lines: Seq<Seq<char>>, k: int)
    requires
        0 <= k < lines.len(),
    ensures
        sln::project_at(pre + lines, pre.len() + k) == match sln::project_at(lines, k) {
            Ok((p, next)) => Ok::<(ProjectView, int), SlnFault>((p, pre.len() + next)),
            Err(e) => Err(e),
        },
        sln::project_at(lines, k) matches Ok((p, next)) ==> k < next <= lines.len(),
{
    let all = pre + lines;
    let n = pre.len();
    lemma_project_end_shift(pre, lines, k);
    assert(all[n + k] == lines[k]);
    let end = sln::project_end(lines, k);
    if k + 1 <= end < lines.len() {
        assert(all.subrange(n + k + 1, n + end) =~= lines.subrange(k + 1, end));
    }
}

proof fn lemma_section_at_shift(pre: Seq<Seq<char>>, lines: Seq<Seq<char>>, k: int)
    requires
        0 <= k < lines.len(),
    ensures
        sln::section_at(pre + lines, pre.len() + k) == match sln::section_at(lines, k) {
            Ok((s, next)) => Ok::<(SectionView, int), SlnFault>((s, pre.len() + next)),
            Err(e) => Err(e),
        },
        sln::section_at(lines, k) matches Ok((s, next)) ==> k < next <= lines.len(),
{
    let all = pre + lines;
    let n = pre.len();
    lemma_section_end_shift(pre, lines, k + 1);
    assert(all[n + k] == lines[k]);
    let end = sln::section_end(lines, k + 1);
    if end < lines.len() {
        assert(all[n + end] == lines[end]);
        assert(all.subrange(n + k + 1, n + end) =~= lines.subrange(k + 1, end));
    }
}

proof fn lemma_sections_shift(
    pre: Seq<Seq<char>>,
    lines: Seq<Seq<char>>,
    k: int,
    before: Seq<SectionView>,
)
    requires
        0 <= k <= lines.len(),
    ensures
        sln::sections_from(pre + lines, pre.len() + k, before) == sln::sections_from(
            lines,
            k,
            before,
        ),
    decreases lines.len() - k,
{
    if k < lines.len() {
        let start = text::trim_start_of(lines[k]);
        assert((pre + lines)[pre.len() + k] == lines[k]);
        if text::begins_with(start, "GlobalSection("@) {
            lemma_section_at_shift(pre, lines, k);
            if let Ok((section, next)) = sln::section_at(lines, k) {
                lemma_sections_shift(pre, lines, next, before.push(section));
            }
        } else if start != "EndGlobal"@ {
            lemma_sections_shift(pre, lines, k + 1, before);
        }
    }
}

proof fn lemma_sections_after(lines: Seq<Seq<char>>, k: int, before: Seq<SectionView>)
    requires
        0 <= k <= lines.len(),
    ensures
        sln::sections_from(lines, k, before) == match sln::sections_from(lines, k, Seq::empty()) {
            Ok(found) => Ok::<Seq<SectionView>, SlnFault>(before + found),
            Err(e) => Err(e),
        },
    decreases lines.len() - k,
{
    let none = Seq::<SectionView>::empty();
    assert(before + none =~= before);
    if k < lines.len() {
        let start = text::trim_start_of(lines[k]);
        if text::begins_with(start, "GlobalSection("@) {
            lemma_section_at_shift(Seq::empty(), lines, k);
            if let Ok((section, next)) = sln::section_at(lines, k) {
                lemma_sections_after(lines, next, before.push(section));
                lemma_sections_after(lines, next, none.push(section));
                if let Ok(found) = sln::sections_from(lines, next, none) {
                    assert(before.push(section) + found =~= before + (none.push(section)
                        + found));
                }
            }
        } else if start != "EndGlobal"@ {
            lemma_sections_after(lines, k + 1, before);
        }
    }
}

proof fn lemma_sln_shift(
    pre: Seq<Seq<char>>,
    lines: Seq<Seq<char>>,
    k: int,
    header: Seq<Seq<char>>,
    projects: Seq<ProjectView>,
    newline: Seq<char>,
)
    requires
        0 <= k <= lines.len(),
    ensures
        sln::sln_from(pre + lines, pre.len() + k, header, projects, newline) == sln::sln_from(
            lines,
            k,
            header,
            projects,
            newline,
        ),
    decreases lines.len() - k,
{
    if k < lines.len() {
        let start = text::trim_start_of(lines[k]);
        assert((pre + lines)[pre.len() + k] == lines[k]);
        if text::begins_with(start, "Project("@) {
            lemma_project_at_shift(pre, lines, k);
            if let Ok((project, next)) = sln::project_at(lines, k) {
                lemma_sln_shift(pre, lines, next, header, projects.push(project), newline);
            }
        } else if start == "Global"@ {
            lemma_sections_shift(pre, lines, k, Seq::empty());
        } else {
            lemma_sln_shift(pre, lines, k + 1, header.push(lines[k]), projects, newline);
        }
    }
}

/// A solution with header lines and projects before its own.
pub open spec fn behind(
    header: Seq<Seq<char>>,
    projects: Seq<ProjectView>,
    solution: SlnView,
) -> SlnView {
    SlnView {
        header: header + solution.header,
        projects: projects + solution.projects,
        ..solution
    }
}

proof fn lemma_sln_after(
    lines: Seq<Seq<char>>,
    k: int,
    header: Seq<Seq<char>>,
    projects: Seq<ProjectView>,
    newline: Seq<char>,
)
    requires
        0 <= k <= lines.len(),
    ensures
        sln::sln_from(lines, k, header, projects, newline) == match sln::sln_from(
            lines,
            k,
            Seq::empty(),
            Seq::empty(),
            newline,
        ) {
            Ok(found) => Ok::<SlnView, SlnFault>(behind(header, projects, found)),
            Err(e) => Err(e),
        },
    decreases lines.len() - k,
{
    let no_lines = Seq::<Seq<char>>::empty();
    let none = Seq::<ProjectView>::empty();
    assert(header + no_lines =~= header);
    assert(projects + none =~= projects);
    if k < lines.len() {
        let start = text::trim_start_of(lines[k]);
        if text::begins_with(start, "Project("@) {
            lemma_project_at_shift(Seq::empty(), lines, k);
            if let Ok((project, next)) = sln::project_at(lines, k) {
                lemma_sln_after(lines, next, header, projects.push(project), newline);
                lemma_sln_after(lines, next, no_lines, none.push(project), newline);
                if let Ok(found) = sln::sln_from(lines, next, no_lines, none, newline) {
                    assert(projects.push(project) + found.projects =~= projects + (none.push(
                        project,
                    ) + found.projects));
                    assert(no_lines + found.header =~= found.header);
                }
            }
        } else if start != "Global"@ {
            lemma_sln_after(lines, k + 1, header.push(lines[k]), projects, newline);
            lemma_sln_after(lines, k + 1, no_lines.push(lines[k]), none, newline);
            if let Ok(found) = sln::sln_from(lines, k + 1, no_lines, none, newline) {
                assert(header.push(lines[k]) + found.header =~= header + (no_lines.push(lines[k])
                    + found.header));
                assert(none + found.projects =~= found.projects);
            }
        }
    }
}

/// The texts have the same line endings.
pub open spec fn end_alike(a: Seq<char>, b: Seq<char>) -> bool {
    text::contains_text(a, "\r\n"@) == text::contains_text(b, "\r\n"@)
}

/// `r` is what was read as `rest`, with header lines and projects before it; what was refused is
/// refused for the same reason.
pub open spec fn is_read_behind(
    header: Seq<Seq<char>>,
    projects: Seq<ProjectView>,
    rest: Result<SlnData, SlnError>,
    r: Result<SlnData, SlnError>,
) -> bool {
    match rest {
        Ok(found) => r matches Ok(all) && all@ == behind(header, projects, found@),
        Err(why) => r matches Err(e) && e@ == why@,
    }
}

/// A line that begins neither a project nor the global block belongs to the header, and what
/// follows it is read on its own.
pub proof fn law_header_lines_are_kept(
    content: &str,
    rest: &str,
    line: Seq<char>,
    r: Result<SlnData, SlnError>,
    after: Result<SlnData, SlnError>,
)
    requires
        text::lines_of(content@) == seq![line] + text::lines_of(rest@),
        end_alike(content@, rest@),
        !text::begins_with(text::trim_start_of(line), "Project("@),
        text::trim_start_of(line) != "Global"@,
        call_ensures(sln::parse_sln, (content,), r),
        call_ensures(sln::parse_sln, (rest,), after),
    ensures
        is_read_behind(seq![line], Seq::empty(), after, r),
{
    let all = text::lines_of(content@);
    let others = text::lines_of(rest@);
    let newline = sln::newline_of(content@);
    let none = Seq::<ProjectView>::empty();
    assert(all[0] == line);
    assert(Seq::<Seq<char>>::empty().push(line) =~= seq![line]);
    lemma_sln_after(all, 1, seq![line], none, newline);
    lemma_sln_shift(seq![line], others, 0, Seq::empty(), none, newline);
}

/// A value with so many quotation marks before and after it.
pub open spec fn quoted(value: Seq<char>, marks: (nat, nat)) -> Seq<char> {
    Seq::new(marks.0, |i: int| '"') + value + Seq::new(marks.1, |i: int| '"')
}

/// A field holds a value, with white space and quotation marks around it.
pub open spec fn is_field(field: Seq<char>, value: Seq<char>, marks: (nat, nat)) -> bool {
    &&& exists|before: Seq<char>, after: Seq<char>|
        text_laws::is_blank(before) && text_laws::is_blank(after) && field == #[trigger] (before
            + quoted(value, marks) + after)
    &&& value.len() > 0
    &&& !text::is_space(value[0]) && !text::is_space(value.last())
    &&& value[0] != '"' && value.last() != '"'
}

proof fn lemma_strip_leading(n: nat, c: char, s: Seq<char>)
    requires
        s.len() > 0,
        s[0] != c,
    ensures
        text::strip_leading(Seq::new(n, |i: int| c) + s, c) == s,
    decreases n,
{
    let run = Seq::new(n, |i: int| c);
    if n == 0 {
        assert(run + s =~= s);
    } else {
        let less = Seq::new((n - 1) as nat, |i: int| c);
        lemma_strip_leading((n - 1) as nat, c, s);
        assert((run + s).skip(1) =~= less + s);
        assert((run + s)[0] == c);
    }
}

proof fn lemma_field(field: Seq<char>, value: Seq<char>, marks: (nat, nat))
    requires
        is_field(field, value, marks),
    ensures
        sln::field_of(field) == value,
{
    let left = Seq::new(marks.0, |i: int| '"');
    let right = Seq::new(marks.1, |i: int| '"');
    let whole = quoted(value, marks);
    let (before, after) = choose|before: Seq<char>, after: Seq<char>|
        text_laws::is_blank(before) && text_laws::is_blank(after) && field == #[trigger] (before
            + whole + after);
    text_laws::law_white_space('"');
    assert(whole[0] == if marks.0 > 0 {
        '"'
    } else {
        value[0]
    });
    assert(whole.last() == if marks.1 > 0 {
        '"'
    } else {
        value.last()
    });
    text_laws::law_trimming_finds_the_text(before, whole, after);
    assert(whole =~= left + (value + right));
    assert((value + right)[0] == value[0]);
    lemma_strip_leading(marks.0, '"', value + right);
    text_laws::law_stripping(marks.1, '"', value);
    let none = Seq::<char>::empty();
    text_laws::law_trimming_finds_the_text(none, value, none);
    assert(none + value + none =~= value);
}

proof fn lemma_split_first(before: Seq<char>, c: char, after: Seq<char>)
    requires
        text_laws::lacks(before, c),
    ensures
        text::split_of(before + seq![c] + after, c) == seq![before] + text::split_of(after, c),
        text::split_of(before, c) == seq![before],
{
    let all = before + seq![c] + after;
    text_laws::lemma_first_index_is(before, c, after);
    assert(all.take(before.len() as int) =~= before);
    assert(all.skip(before.len() + 1int) =~= after);
}

/// The first line of a project: the type stands in the first braces and the identifier in the
/// last ones; between the first and the next equals sign stand the name and the path, parted by
/// the first comma.
pub open spec fn is_first_line(
    line: Seq<char>,
    p: ProjectView,
    name: Seq<char>,
    path: Seq<char>,
    left: Seq<char>,
    middle: Seq<char>,
    end: Seq<char>,
    tail: Seq<char>,
) -> bool {
    &&& text::begins_with(text::trim_start_of(line), "Project("@)
    &&& line == left + seq!['='] + (middle + tail)
    &&& text_laws::lacks(left, '=') && text_laws::lacks(middle, '=')
    &&& tail.len() == 0 || tail[0] == '='
    &&& middle == name + seq![','] + (path + end)
    &&& text_laws::lacks(name, ',') && text_laws::lacks(path, ',')
    &&& end.len() == 0 || end[0] == ','
    &&& exists|inner: Seq<char>, before: Seq<char>, after: Seq<char>|
        text_laws::lacks(inner, '}') && text_laws::lacks(before, '{') && p.first_guid == seq!['{']
            + inner + seq!['}'] && line == #[trigger] (before + (seq!['{'] + inner + seq!['}'])
            + after)
    &&& exists|inner: Seq<char>, before: Seq<char>, after: Seq<char>|
        text_laws::lacks(inner, '}') && text_laws::lacks(inner, '{') && text_laws::lacks(after, '{')
            && p.guid == seq!['{'] + inner + seq!['}'] && line == #[trigger] (before + (seq!['{']
            + inner + seq!['}']) + after)
}

proof fn lemma_braced(inner: Seq<char>, after: Seq<char>)
    requires
        text_laws::lacks(inner, '}'),
    ensures
        sln::braced((seq!['{'] + inner + seq!['}']) + after) == Some(
            seq!['{'] + inner + seq!['}'],
        ),
{
    let whole = (seq!['{'] + inner + seq!['}']) + after;
    assert(whole =~= (seq!['{'] + inner) + seq!['}'] + after);
    assert(text_laws::lacks(seq!['{'] + inner, '}'));
    text_laws::lemma_first_index_is(seq!['{'] + inner, '}', after);
    assert(whole.take(inner.len() as int + 2) =~= seq!['{'] + inner + seq!['}']);
}

proof fn lemma_first_guid(before: Seq<char>, inner: Seq<char>, after: Seq<char>)
    requires
        text_laws::lacks(inner, '}'),
        text_laws::lacks(before, '{'),
    ensures
        sln::first_guid_in(before + (seq!['{'] + inner + seq!['}']) + after) == Some(
            seq!['{'] + inner + seq!['}'],
        ),
{
    let line = before + (seq!['{'] + inner + seq!['}']) + after;
    assert(line =~= before + seq!['{'] + (inner + seq!['}'] + after));
    text_laws::lemma_first_index_is(before, '{', inner + seq!['}'] + after);
    assert(line.skip(before.len() as int) =~= (seq!['{'] + inner + seq!['}']) + after);
    lemma_braced(inner, after);
}

proof fn lemma_last_guid(before: Seq<char>, inner: Seq<char>, after: Seq<char>)
    requires
        text_laws::lacks(inner, '}'),
        text_laws::lacks(inner, '{'),
        text_laws::lacks(after, '{'),
    ensures
        sln::last_guid_in(before + (seq!['{'] + inner + seq!['}']) + after) == Some(
            seq!['{'] + inner + seq!['}'],
        ),
{
    let line = before + (seq!['{'] + inner + seq!['}']) + after;
    let tail = inner + seq!['}'] + after;
    assert(line =~= before + seq!['{'] + tail);
    text::lemma_last_index(line, '{');
    assert(line[before.len() as int] == '{');
    assert(text_laws::lacks(tail, '{'));
    if let Some(i) = text::last_index(line, '{') {
        if i > before.len() {
            assert(line[i] == tail[i - before.len() - 1]);
        }
    }
    assert(line.skip(before.len() as int) =~= (seq!['{'] + inner + seq!['}']) + after);
    lemma_braced(inner, after);
}

proof fn lemma_first_line(
    line: Seq<char>,
    p: ProjectView,
    name: Seq<char>,
    path: Seq<char>,
    left: Seq<char>,
    middle: Seq<char>,
    end: Seq<char>,
    tail: Seq<char>,
)
    requires
        is_first_line(line, p, name, path, left, middle, end, tail),
    ensures
        sln::first_guid_in(line) == Some(p.first_guid),
        sln::last_guid_in(line) == Some(p.guid),
        text::split_of(line, '=').len() >= 2,
        text::split_of(line, '=')[1] == middle,
        text::split_of(middle, ',').len() >= 2,
        text::split_of(middle, ',')[0] == name,
        text::split_of(middle, ',')[1] == path,
{
    let (inner, before, after) = choose|inner: Seq<char>, before: Seq<char>, after: Seq<char>|
        text_laws::lacks(inner, '}') && text_laws::lacks(before, '{') && p.first_guid == seq!['{']
            + inner + seq!['}'] && line == #[trigger] (before + (seq!['{'] + inner + seq!['}'])
            + after);
    lemma_first_guid(before, inner, after);
    let (inner2, before2, after2) = choose|inner: Seq<char>, before: Seq<char>, after: Seq<char>|
        text_laws::lacks(inner, '}') && text_laws::lacks(inner, '{') && text_laws::lacks(after, '{')
            && p.guid == seq!['{'] + inner + seq!['}'] && line == #[trigger] (before + (seq!['{']
            + inner + seq!['}']) + after);
    lemma_last_guid(before2, inner2, after2);
    lemma_two_pieces(left, '=', middle, tail);
    lemma_two_pieces(name, ',', path, end);
}

proof fn lemma_two_pieces(first: Seq<char>, c: char, second: Seq<char>, tail: Seq<char>)
    requires
        text_laws::lacks(first, c),
        text_laws::lacks(second, c),
        tail.len() == 0 || tail[0] == c,
    ensures
        text::split_of(first + seq![c] + (second + tail), c).len() >= 2,
        text::split_of(first + seq![c] + (second + tail), c)[0] == first,
        text::split_of(first + seq![c] + (second + tail), c)[1] == second,
{
    lemma_split_first(first, c, second + tail);
    if tail.len() == 0 {
        assert(second + tail =~= second);
        lemma_split_first(second, c, tail);
    } else {
        let rest = tail.skip(1);
        assert(second + tail =~= second + seq![c] + rest);
        lemma_split_first(second, c, rest);
    }
}

proof fn lemma_project_end_is(lines: Seq<Seq<char>>, k: int, end: int)
    requires
        0 <= k <= end < lines.len(),
        text::trim_of(lines[end]) == "EndProject"@,
        forall|i: int| k <= i < end ==> text::trim_of(#[trigger] lines[i]) != "EndProject"@,
    ensures
        sln::project_end(lines, k) == end,
    decreases end - k,
{
    if k < end {
        assert(text::trim_of(lines[k]) != "EndProject"@);
        lemma_project_end_is(lines, k + 1, end);
    }
}

/// A project is read with all the lines up to the one that ends it, and taken for a file; what
/// follows is read on its own.
pub proof fn law_projects_are_read(
    content: &str,
    rest: &str,
    line: Seq<char>,
    last: Seq<char>,
    p: ProjectView,
    fields: (Seq<char>, Seq<char>),
    marks: ((nat, nat), (nat, nat)),
    parts: (Seq<char>, Seq<char>, Seq<char>, Seq<char>),
    r: Result<SlnData, SlnError>,
    after: Result<SlnData, SlnError>,
)
    requires
        text::lines_of(content@) == seq![line] + p.section + seq![last] + text::lines_of(rest@),
        end_alike(content@, rest@),
        is_first_line(line, p, fields.0, fields.1, parts.0, parts.1, parts.2, parts.3),
        is_field(fields.0, p.name, marks.0),
        is_field(fields.1, p.path, marks.1),
        p.is_file,
        text::trim_of(line) != "EndProject"@,
        forall|i: int|
            0 <= i < p.section.len() ==> text::trim_of(#[trigger] p.section[i]) != "EndProject"@,
        text::trim_of(last) == "EndProject"@,
        call_ensures(sln::parse_sln, (content,), r),
        call_ensures(sln::parse_sln, (rest,), after),
    ensures
        is_read_behind(Seq::empty(), seq![p], after, r),
{
    let all = text::lines_of(content@);
    let others = text::lines_of(rest@);
    let newline = sln::newline_of(content@);
    let no_lines = Seq::<Seq<char>>::empty();
    let block = seq![line] + p.section + seq![last];
    let end: int = p.section.len() as int + 1;
    assert(all[0] == line);
    assert(all[end] == last);
    assert forall|i: int| 0 <= i < end implies text::trim_of(#[trigger] all[i])
        != "EndProject"@ by {
        if i > 0 {
            assert(all[i] == p.section[i - 1]);
        }
    }
    lemma_project_end_is(all, 0, end);
    lemma_first_line(line, p, fields.0, fields.1, parts.0, parts.1, parts.2, parts.3);
    lemma_field(fields.0, p.name, marks.0);
    lemma_field(fields.1, p.path, marks.1);
    assert(all.subrange(1, end) =~= p.section);
    assert(sln::project_at(all, 0) == Ok::<(ProjectView, int), SlnFault>((p, end + 1)));
    assert(Seq::<ProjectView>::empty().push(p) =~= seq![p]);
    lemma_sln_after(all, end + 1, no_lines, seq![p], newline);
    lemma_sln_shift(block, others, 0, no_lines, Seq::empty(), newline);
    assert(block + others =~= all);
}

/// The global block ends the solution: no project is read behind its first line. A text without
/// one is refused.
pub proof fn law_global_block_ends_the_solution(
    content: &str,
    line: Seq<char>,
    tail: Seq<Seq<char>>,
    r: Result<SlnData, SlnError>,
)
    requires
        text::lines_of(content@) == seq![line] + tail,
        text::trim_start_of(line) == "Global"@,
        call_ensures(sln::parse_sln, (content,), r),
    ensures
        r matches Ok(found) ==> found@.header.len() == 0 && found@.projects.len() == 0
            && found@.newline == if text::contains_text(content@, "\r\n"@) {
            "\r\n"@
        } else {
            "\n"@
        },
        r matches Err(e) ==> e@ is MissingEndGlobalSection,
{
    reveal_strlit("Project(");
    reveal_strlit("Global");
    let all = text::lines_of(content@);
    assert(all[0] == line);
    assert(!text::begins_with("Global"@, "Project("@));
    lemma_sections_refusal(all, 0, Seq::empty());
}

proof fn lemma_sections_refusal(lines: Seq<Seq<char>>, k: int, before: Seq<SectionView>)
    requires
        0 <= k <= lines.len(),
    ensures
        sln::sections_from(lines, k, before) matches Err(e) ==> e is MissingEndGlobalSection,
    decreases lines.len() - k,
{
    if k < lines.len() {
        let start = text::trim_start_of(lines[k]);
        if text::begins_with(start, "GlobalSection("@) {
            lemma_section_at_shift(Seq::empty(), lines, k);
            if let Ok((section, next)) = sln::section_at(lines, k) {
                lemma_sections_refusal(lines, next, before.push(section));
            }
        } else if start != "EndGlobal"@ {
            lemma_sections_refusal(lines, k + 1, before);
        }
    }
}

/// A text that runs out before its global block is refused.
pub proof fn law_solutions_need_a_global_block(content: &str, r: Result<SlnData, SlnError>)
    requires
        text::lines_of(content@).len() == 0,
        call_ensures(sln::parse_sln, (content,), r),
    ensures
        r matches Err(e) && e@ is MissingGlobal,
{
}

proof fn lemma_section_end_is(lines: Seq<Seq<char>>, k: int, end: int)
    requires
        0 <= k <= end < lines.len(),
        text::begins_with(text::trim_start_of(lines[end]), "EndGlobalSection"@),
        forall|i: int|
            k <= i < end ==> !text::begins_with(
                text::trim_start_of(#[trigger] lines[i]),
                "EndGlobalSection"@,
            ),
    ensures
        sln::section_end(lines, k) == end,
    decreases end - k,
{
    if k < end {
        assert(!text::begins_with(text::trim_start_of(lines[k]), "EndGlobalSection"@));
        lemma_section_end_is(lines, k + 1, end);
    }
}

/// `r` is what was read as `rest`, with a section before its own.
pub open spec fn is_read_with_section(
    section: SectionView,
    rest: Result<SlnData, SlnError>,
    r: Result<SlnData, SlnError>,
) -> bool {
    match rest {
        Ok(found) => r matches Ok(all) && all@ == (SlnView {
            sections: seq![section] + found@.sections,
            ..found@
        }),
        Err(why) => r matches Err(e) && e@ == why@,
    }
}

/// A section of the global block is read with all the lines up to the one that ends it, under the
/// name in the brackets of its first line; what follows is read as if it were not there.
pub proof fn law_sections_are_read(
    content: &str,
    rest: &str,
    global: Seq<char>,
    tail: Seq<Seq<char>>,
    s: SectionView,
    indent: Seq<char>,
    more: Seq<char>,
    r: Result<SlnData, SlnError>,
    after: Result<SlnData, SlnError>,
)
    requires
        text::lines_of(content@) == seq![global] + (seq![s.header] + s.lines + seq![s.footer])
            + tail,
        text::lines_of(rest@) == seq![global] + tail,
        end_alike(content@, rest@),
        text::trim_start_of(global) == "Global"@,
        text_laws::is_blank(indent),
        s.header == indent + ("GlobalSection("@ + s.name + seq![')'] + more),
        text_laws::lacks(s.name, ')'),
        !text::begins_with(s.name + seq![')'] + more, "GlobalSection("@),
        forall|i: int|
            0 <= i < s.lines.len() ==> !text::begins_with(
                text::trim_start_of(#[trigger] s.lines[i]),
                "EndGlobalSection"@,
            ),
        text::begins_with(text::trim_start_of(s.footer), "EndGlobalSection"@),
        call_ensures(sln::parse_sln, (content,), r),
        call_ensures(sln::parse_sln, (rest,), after),
    ensures
        is_read_with_section(s, after, r),
{
    reveal_strlit("Project(");
    reveal_strlit("Global");
    reveal_strlit("GlobalSection(");
    reveal_strlit("EndGlobal");
    let all = text::lines_of(content@);
    let others = text::lines_of(rest@);
    let block = seq![s.header] + s.lines + seq![s.footer];
    let none = Seq::<SectionView>::empty();
    let end: int = s.lines.len() as int + 2;
    assert(!text::begins_with("Global"@, "Project("@));
    assert(!text::begins_with("Global"@, "GlobalSection("@));
    assert("Global"@ != "EndGlobal"@) by {
        assert("Global"@.len() != "EndGlobal"@.len());
    }
    assert(all[0] == global && others[0] == global);
    assert(all[1] == s.header);
    assert(all[end] == s.footer);
    let named = "GlobalSection("@ + s.name + seq![')'] + more;
    assert(named[0] == 'G');
    text_laws::law_white_space('G');
    lemma_trim_start_is(indent, named);
    assert(text::begins_with(named, "GlobalSection("@)) by {
        assert(named.take("GlobalSection("@.len() as int) =~= "GlobalSection("@);
    }
    lemma_section_name(s.name, more);
    assert forall|i: int| 2 <= i < end implies !text::begins_with(
        text::trim_start_of(#[trigger] all[i]),
        "EndGlobalSection"@,
    ) by {
        assert(all[i] == s.lines[i - 2]);
    }
    lemma_section_end_is(all, 2, end);
    assert(all.subrange(2, end) =~= s.lines);
    assert(sln::section_at(all, 1) == Ok::<(SectionView, int), SlnFault>((s, end + 1)));
    assert(none.push(s) =~= seq![s]);
    lemma_sections_after(all, end + 1, seq![s]);
    lemma_sections_shift(seq![global] + block, tail, 0, none);
    lemma_sections_shift(seq![global], tail, 0, none);
    assert((seq![global] + block) + tail =~= all);
    let read = sln::sections_from(tail, 0, none);
    assert(sln::sections_from(others, 0, none) == read);
    assert(sln::sections_from(all, 0, none) == sln::sections_from(all, 1, none));
    assert(sln::sections_from(all, 1, none) == sln::sections_from(all, end + 1, none.push(s)));
    assert(sln::sections_from(all, 0, none) == match read {
        Ok(found) => Ok::<Seq<SectionView>, SlnFault>(seq![s] + found),
        Err(e) => Err(e),
    });
}

proof fn lemma_trim_start_is(blank: Seq<char>, s: Seq<char>)
    requires
        text_laws::is_blank(blank),
        s.len() > 0,
        !text::is_space(s[0]),
    ensures
        text::trim_start_of(blank + s) == s,
{
    let all = blank + s;
    let k = text_laws::lemma_trim_start(all);
    assert(all[blank.len() as int] == s[0]);
    if k < blank.len() {
        assert(all[k] == blank[k]);
    } else if k > blank.len() {
        assert(all.take(k)[blank.len() as int] == s[0]);
    }
    assert(all.skip(blank.len() as int) =~= s);
}

proof fn lemma_section_name(name: Seq<char>, more: Seq<char>)
    requires
        text_laws::lacks(name, ')'),
        !text::begins_with(name + seq![')'] + more, "GlobalSection("@),
    ensures
        text::split_of(
            text::strip_repeated(
                "GlobalSection("@ + name + seq![')'] + more,
                "GlobalSection("@,
            ),
            ')',
        )[0] == name,
{
    reveal_strlit("GlobalSection(");
    let begin = "GlobalSection("@;
    let rest = name + seq![')'] + more;
    let whole = begin + name + seq![')'] + more;
    assert(whole =~= begin + rest);
    assert(whole.take(begin.len() as int) =~= begin);
    assert(whole.skip(begin.len() as int) =~= rest);
    reveal_with_fuel(text::strip_repeated, 3);
    assert(text::strip_repeated(rest, begin) == rest);
    assert(text::strip_repeated(whole, begin) == rest);
    lemma_split_first(name, ')', more);
}

/// Each project is noted to be a file or a folder, and nothing else of the solution changes.
pub proof fn law_kinds_are_noted(files: &Vec<bool>)
    ensures
        forall|c: &mut SlnData| #[trigger]
            call_ensures(SlnData::mark_files, (c, files), ()) && files@.len() == c.projects@.len()
                ==> {
                &&& final(c)@.header == c@.header
                &&& final(c)@.sections == c@.sections
                &&& final(c)@.newline == c@.newline
                &&& final(c)@.projects.len() == c@.projects.len()
                &&& forall|i: int|
                    0 <= i < files@.len() ==> #[trigger] final(c)@.projects[i] == (ProjectView {
                        is_file: files@[i],
                        ..c@.projects[i]
                    })
            },
{
}

/// A project line without braces, or without a line that ends the project behind it, is refused.
pub proof fn law_faulty_projects_are_refused(
    content: &str,
    line: Seq<char>,
    tail: Seq<Seq<char>>,
    r: Result<SlnData, SlnError>,
)
    requires
        text::lines_of(content@) == seq![line] + tail,
        text::begins_with(text::trim_start_of(line), "Project("@),
        call_ensures(sln::parse_sln, (content,), r),
    ensures
        text_laws::lacks(line, '{') ==> (r matches Err(e) && e@ == SlnFault::NoFirstGuid(line)),
        (forall|i: int|
            0 <= i < tail.len() ==> text::trim_of(#[trigger] tail[i]) != "EndProject"@)
            && text::trim_of(line) != "EndProject"@ ==> r is Err,
{
    let all = text::lines_of(content@);
    assert(all[0] == line);
    if text_laws::lacks(line, '{') {
        text_laws::lemma_first_index_is(line, '{', line);
    }
    if (forall|i: int|
        0 <= i < tail.len() ==> text::trim_of(#[trigger] tail[i]) != "EndProject"@)
        && text::trim_of(line) != "EndProject"@ {
        assert forall|i: int| 0 <= i < all.len() implies text::trim_of(#[trigger] all[i])
            != "EndProject"@ by {
            if i > 0 {
                assert(all[i] == tail[i - 1]);
            }
        }
        lemma_endless_project(all, 0);
    }
}

proof fn lemma_endless_project(lines: Seq<Seq<char>>, k: int)
    requires
        0 <= k <= lines.len(),
        forall|i: int| k <= i < lines.len() ==> text::trim_of(#[trigger] lines[i]) != "EndProject"@,
    ensures
        sln::project_end(lines, k) == lines.len(),
    decreases lines.len() - k,
{
    if k < lines.len() {
        assert(text::trim_of(lines[k]) != "EndProject"@);
        lemma_endless_project(lines, k + 1);
    }
}

} // verus!
