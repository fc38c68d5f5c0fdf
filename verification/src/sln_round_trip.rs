//! What is read from a well-formed solution file is written back as it was.

use crate::sln::{self, ProjectView, SectionView, SlnFault, SlnView};
use crate::text;
use vstd::prelude::*;

verus! {

/// The character is nowhere in the text.
pub open spec fn lacks(s: Seq<char>, c: char) -> bool {
    forall|i: int| 0 <= i < s.len() ==> #[trigger] s[i] != c
}

/// A line without a line ending in it.
pub open spec fn is_one_line(line: Seq<char>) -> bool {
    lacks(line, '\n') && lacks(line, '\r')
}

/// Each line with the line ending.
pub open spec fn ended(lines: Seq<Seq<char>>, newline: Seq<char>) -> Seq<char>
    decreases lines.len(),
{
    if lines.len() == 0 {
        Seq::empty()
    } else {
        lines[0] + newline + ended(lines.skip(1), newline)
    }
}

/// Begins with an opening brace and ends with a closing one, with no closing one inside.
pub open spec fn is_braced(guid: Seq<char>) -> bool {
    &&& guid.len() >= 2
    &&& guid[0] == '{'
    &&& guid.last() == '}'
    &&& lacks(guid.drop_last(), '}')
}

/// A name or path that quotation marks and commas around it set off.
pub open spec fn is_field(s: Seq<char>) -> bool {
    &&& lacks(s, ',')
    &&& lacks(s, '=')
    &&& s.len() > 0 ==> !text::is_space(s[0]) && !text::is_space(s.last()) && s[0] != '"'
        && s.last() != '"'
}

/// A project as a well-formed file holds it.
pub open spec fn is_sound_project(p: ProjectView) -> bool {
    &&& is_braced(p.first_guid)
    &&& lacks(p.first_guid, '=')
    &&& is_braced(p.guid)
    &&& lacks(p.guid.skip(1), '{')
    &&& is_field(p.name)
    &&& is_field(p.path)
    &&& forall|i: int|
        0 <= i < p.section.len() ==> text::trim_of(#[trigger] p.section[i]) != "EndProject"@
    &&& p.is_file
}

/// A section of the global block as a well-formed file holds it.
pub open spec fn is_sound_section(s: SectionView) -> bool {
    &&& text::begins_with(text::trim_start_of(s.header), "GlobalSection("@)
    &&& s.name == sln::section_name(s.header)
    &&& forall|i: int|
        0 <= i < s.lines.len() ==> !text::begins_with(
            text::trim_start_of(#[trigger] s.lines[i]),
            "EndGlobalSection"@,
        )
    &&& text::begins_with(text::trim_start_of(s.footer), "EndGlobalSection"@)
}

/// A line that stands before the projects.
pub open spec fn is_header_line(line: Seq<char>) -> bool {
    &&& !text::begins_with(text::trim_start_of(line), "Project("@)
    &&& text::trim_start_of(line) != "Global"@
}

/// A solution as a well-formed file holds it: the header, the projects, and the global block with
/// nothing but sections in it, with the same ending of every line.
pub open spec fn is_sound(solution: SlnView) -> bool {
    &&& solution.newline == "\n"@ || solution.newline == "\r\n"@
    &&& forall|i: int|
        0 <= i < sln::sln_lines(solution).len() ==> is_one_line(
            #[trigger] sln::sln_lines(solution)[i],
        )
    &&& forall|i: int| 0 <= i < solution.header.len() ==> is_header_line(
        #[trigger] solution.header[i],
    )
    &&& forall|i: int| 0 <= i < solution.projects.len() ==> is_sound_project(
        #[trigger] solution.projects[i],
    )
    &&& forall|i: int| 0 <= i < solution.sections.len() ==> is_sound_section(
        #[trigger] solution.sections[i],
    )
}

proof fn lemma_first_at(s: Seq<char>, c: char, i: int)
    requires
        0 <= i < s.len(),
        s[i] == c,
        lacks(s.take(i), c),
    ensures
        text::first_index(s, c) == Some(i),
{
    text::lemma_first_index(s, c);
    assert forall|j: int| 0 <= j < i implies s[j] != c by {
        assert(s.take(i)[j] == s[j]);
    }
}

proof fn lemma_last_at(s: Seq<char>, c: char, i: int)
    requires
        0 <= i < s.len(),
        s[i] == c,
        lacks(s.skip(i + 1), c),
    ensures
        text::last_index(s, c) == Some(i),
{
    text::lemma_last_index(s, c);
    assert forall|j: int| i < j < s.len() implies s[j] != c by {
        assert(s.skip(i + 1)[j - i - 1] == s[j]);
    }
}

proof fn lemma_ended_push(lines: Seq<Seq<char>>, newline: Seq<char>)
    requires
        lines.len() > 0,
    ensures
        ended(lines, newline) == ended(lines.drop_last(), newline) + lines.last() + newline,
    decreases lines.len(),
{
    if lines.len() == 1 {
        assert(lines.skip(1) =~= Seq::empty());
        assert(lines.drop_last() =~= Seq::empty());
        assert(ended(lines.skip(1), newline) =~= Seq::empty());
        assert(ended(lines.drop_last(), newline) =~= Seq::empty());
        assert(ended(lines, newline) =~= lines[0] + newline);
    } else {
        let front = lines.drop_last();
        lemma_ended_push(lines.skip(1), newline);
        assert(lines.skip(1).drop_last() =~= front.skip(1));
        assert(lines.skip(1).last() == lines.last());
        assert(ended(lines, newline) =~= (lines[0] + newline + ended(front.skip(1), newline))
            + lines.last() + newline);
    }
}

proof fn lemma_join_is_ended(lines: Seq<Seq<char>>, newline: Seq<char>)
    requires
        lines.len() > 0,
    ensures
        text::join_of(lines, newline) + newline == ended(lines, newline),
    decreases lines.len(),
{
    lemma_ended_push(lines, newline);
    if lines.len() == 1 {
        assert(lines.drop_last() =~= Seq::empty());
        assert(ended(lines.drop_last(), newline) =~= Seq::empty());
        assert(ended(lines, newline) =~= lines[0] + newline);
    } else {
        lemma_join_is_ended(lines.drop_last(), newline);
    }
}

proof fn lemma_lines_of_ended(lines: Seq<Seq<char>>, newline: Seq<char>)
    requires
        newline == "\n"@ || newline == "\r\n"@,
        forall|i: int| 0 <= i < lines.len() ==> is_one_line(#[trigger] lines[i]),
    ensures
        text::lines_of(ended(lines, newline)) == lines,
    decreases lines.len(),
{
    reveal_strlit("\n");
    reveal_strlit("\r\n");
    if lines.len() == 0 {
        assert(lines =~= Seq::empty());
    } else {
        let all = ended(lines, newline);
        let rest = lines.skip(1);
        let line = lines[0];
        let at = line.len() + newline.len() - 1;
        assert(is_one_line(line));
        assert(all =~= line + newline + ended(rest, newline));
        assert(newline.last() == '\n');
        assert(all[at] == '\n');
        assert(all.take(at) =~= line + newline.drop_last());
        assert(lacks(all.take(at), '\n'));
        lemma_first_at(all, '\n', at);
        assert(all.skip(at + 1) =~= ended(rest, newline));
        assert forall|i: int| 0 <= i < rest.len() implies is_one_line(#[trigger] rest[i]) by {
            assert(rest[i] == lines[i + 1]);
        }
        lemma_lines_of_ended(rest, newline);
        if newline == "\r\n"@ {
            assert(all.take(at).drop_last() =~= line);
        } else {
            assert(all.take(at) =~= line);
            if line.len() > 0 {
                assert(line[line.len() - 1] != '\r');
            }
        }
        assert(text::line_body(all.take(at)) == line);
        assert(seq![line] + rest =~= lines);
    }
}

proof fn lemma_ended_lacks(lines: Seq<Seq<char>>, newline: Seq<char>, c: char)
    requires
        forall|i: int| 0 <= i < lines.len() ==> lacks(#[trigger] lines[i], c),
        lacks(newline, c),
    ensures
        lacks(ended(lines, newline), c),
    decreases lines.len(),
{
    if lines.len() > 0 {
        let rest = lines.skip(1);
        assert forall|i: int| 0 <= i < rest.len() implies lacks(#[trigger] rest[i], c) by {
            assert(rest[i] == lines[i + 1]);
        }
        lemma_ended_lacks(rest, newline, c);
        assert(lacks(lines[0], c));
    }
}

proof fn lemma_newline_of_ended(lines: Seq<Seq<char>>, newline: Seq<char>)
    requires
        newline == "\n"@ || newline == "\r\n"@,
        lines.len() > 0,
        forall|i: int| 0 <= i < lines.len() ==> is_one_line(#[trigger] lines[i]),
    ensures
        sln::newline_of(ended(lines, newline)) == newline,
{
    reveal_strlit("\n");
    reveal_strlit("\r\n");
    let all = ended(lines, newline);
    let two = "\r\n"@;
    if newline == two {
        lemma_ended_push(lines, newline);
        let i = all.len() - 2;
        assert(all.subrange(i, i + two.len()) =~= two);
        assert(text::occurs_at(all, two, i));
    } else {
        assert("\n"@ != two) by {
            assert("\n"@.len() == 1 && two.len() == 2);
        }
        assert forall|i: int| 0 <= i < lines.len() implies lacks(#[trigger] lines[i], '\r') by {
            assert(is_one_line(lines[i]));
        }
        lemma_ended_lacks(lines, newline, '\r');
        assert forall|i: int| !text::occurs_at(all, two, i) by {
            if text::occurs_at(all, two, i) {
                assert(all.subrange(i, i + two.len())[0] == all[i]);
                assert(two[0] == '\r');
            }
        }
    }
}

pub proof fn lemma_split_first(s: Seq<char>, c: char, before: Seq<char>, after: Seq<char>)
    requires
        s == before + seq![c] + after,
        lacks(before, c),
    ensures
        text::split_of(s, c).len() == text::split_of(after, c).len() + 1,
        text::split_of(s, c)[0] == before,
        forall|i: int|
            0 <= i < text::split_of(after, c).len() ==> text::split_of(s, c)[i + 1]
                == #[trigger] text::split_of(after, c)[i],
{
    let at = before.len() as int;
    assert(s[at] == c);
    assert(s.take(at) =~= before);
    lemma_first_at(s, c, at);
    assert(s.skip(at + 1) =~= after);
}

proof fn lemma_split_head(s: Seq<char>, c: char, before: Seq<char>, after: Seq<char>)
    requires
        s == before + after,
        lacks(before, c),
    ensures
        text::split_of(s, c)[0] == before + text::split_of(after, c)[0],
        text::split_of(after, c).len() > 0,
{
    let n = before.len() as int;
    text::lemma_first_index(after, c);
    text::lemma_first_index(s, c);
    assert forall|j: int| 0 <= j < after.len() implies s[n + j] == #[trigger] after[j] by {}
    match text::first_index(after, c) {
        Some(i) => {
            assert(s[n + i] == c);
            assert(s.take(n + i) =~= before + after.take(i));
            assert(lacks(s.take(n + i), c)) by {
                assert forall|j: int| 0 <= j < n + i implies #[trigger] s.take(n + i)[j] != c by {
                    if j < n {
                        assert(s.take(n + i)[j] == before[j]);
                    } else {
                        assert(s.take(n + i)[j] == after[j - n]);
                    }
                }
            }
            lemma_first_at(s, c, n + i);
        },
        None => {
            if let Some(i) = text::first_index(s, c) {
                if i < n {
                    assert(s[i] == before[i]);
                } else {
                    assert(s[i] == after[i - n]);
                }
            }
        },
    }
}

proof fn lemma_field_of_quoted(s: Seq<char>)
    requires
        is_field(s),
    ensures
        sln::field_of(" \""@ + s + "\""@) == s,
{
    reveal_strlit(" \"");
    reveal_strlit("\"");
    let whole = " \""@ + s + "\""@;
    let quoted = whole.skip(1);
    let open = s + "\""@;
    assert(text::is_space(whole[0]));
    assert(quoted[0] == '"' && quoted.last() == '"');
    assert(!text::is_space('"'));
    assert(text::trim_start_of(quoted) == quoted);
    assert(text::trim_start_of(whole) == quoted);
    assert(text::trim_end_of(quoted) == quoted);
    assert(quoted.skip(1) =~= open);
    assert(text::strip_leading(quoted, '"') == text::strip_leading(open, '"'));
    if s.len() == 0 {
        assert(open[0] == '"');
        assert(open.skip(1) =~= s);
        assert(text::strip_leading(s, '"') == s);
        assert(text::strip_leading(open, '"') == s);
        assert(text::strip_trailing(s, '"') == s);
        assert(text::trim_of(s) == s);
    } else {
        assert(open[0] == s[0]);
        assert(text::strip_leading(open, '"') == open);
        assert(open.last() == '"');
        assert(open.drop_last() =~= s);
        assert(text::strip_trailing(s, '"') == s);
        assert(text::strip_trailing(open, '"') == s);
        assert(text::trim_start_of(s) == s);
        assert(text::trim_of(s) == s);
    }
}

proof fn lemma_first_guid(p: ProjectView)
    requires
        is_sound_project(p),
    ensures
        sln::first_guid_in(sln::project_line(p)) == Some(p.first_guid),
{
    reveal_strlit("Project(\"");
    let line = sln::project_line(p);
    let g = p.first_guid;
    let start = "Project(\""@;
    let at = start.len() as int;
    assert(line.take(at) =~= start);
    assert(line[at] == g[0]);
    assert(lacks(start, '{'));
    lemma_first_at(line, '{', at);
    let tail = line.skip(at);
    let end = g.len() - 1;
    assert(tail.take(g.len() as int) =~= g);
    assert(tail.take(end) =~= g.drop_last());
    assert(tail[end] == g[end]);
    lemma_first_at(tail, '}', end);
}

proof fn lemma_last_guid(p: ProjectView)
    requires
        is_sound_project(p),
    ensures
        sln::last_guid_in(sln::project_line(p)) == Some(p.guid),
{
    reveal_strlit("\"");
    let line = sln::project_line(p);
    let h = p.guid;
    let close = "\""@;
    let at = line.len() - close.len() - h.len();
    let tail = line.skip(at);
    assert(tail =~= h + close);
    assert(line[at] == h[0]) by {
        assert(tail[0] == line[at]);
    }
    let past = line.skip(at + 1);
    assert(past =~= h.skip(1) + close);
    assert(lacks(past, '{')) by {
        assert forall|j: int| 0 <= j < past.len() implies #[trigger] past[j] != '{' by {
            if j < h.len() - 1 {
                assert(past[j] == h.skip(1)[j]);
            } else {
                assert(past[j] == close[0]);
            }
        }
    }
    lemma_last_at(line, '{', at);
    let end = h.len() - 1;
    assert(tail.take(h.len() as int) =~= h);
    assert(tail.take(end) =~= h.drop_last());
    assert(tail[end] == h[end]);
    lemma_first_at(tail, '}', end);
}

proof fn lemma_fields(p: ProjectView)
    requires
        is_sound_project(p),
    ensures
        ({
            let sides = text::split_of(sln::project_line(p), '=');
            let fields = text::split_of(sides[1], ',');
            &&& sides.len() >= 2
            &&& fields.len() >= 2
            &&& sln::field_of(fields[0]) == p.name
            &&& sln::field_of(fields[1]) == p.path
        }),
{
    reveal_strlit("Project(\"");
    reveal_strlit("\") = \"");
    reveal_strlit("\", \"");
    reveal_strlit("\"");
    reveal_strlit(" \"");
    let line = sln::project_line(p);
    let start = "Project(\""@;
    let quote = "\""@;
    let one = " \""@ + p.name + quote;
    let two = " \""@ + p.path + quote;
    let rest = " \""@ + p.guid + quote;
    let left = start + p.first_guid + "\") = \""@.take(3);
    let right = one + seq![','] + two + seq![','] + rest;
    assert("\") = \""@.take(3) =~= seq!['"', ')', ' ']);
    assert(line =~= left + seq!['='] + right);
    assert(lacks(left, '=')) by {
        assert forall|j: int| 0 <= j < left.len() implies #[trigger] left[j] != '=' by {
            let n = start.len();
            if n <= j < n + p.first_guid.len() {
                assert(left[j] == p.first_guid[j - n]);
            }
        }
    }
    lemma_split_first(line, '=', left, right);
    let front = one + seq![','] + two + seq![','];
    assert(right =~= front + rest);
    assert(lacks(one, '=') && lacks(one, ',')) by {
        assert forall|j: int| 0 <= j < one.len() implies #[trigger] one[j] != '=' && one[j]
            != ',' by {
            if 2 <= j < 2 + p.name.len() {
                assert(one[j] == p.name[j - 2]);
            }
        }
    }
    assert(lacks(two, '=') && lacks(two, ',')) by {
        assert forall|j: int| 0 <= j < two.len() implies #[trigger] two[j] != '=' && two[j]
            != ',' by {
            if 2 <= j < 2 + p.path.len() {
                assert(two[j] == p.path[j - 2]);
            }
        }
    }
    assert(lacks(front, '=')) by {
        assert forall|j: int| 0 <= j < front.len() implies #[trigger] front[j] != '=' by {
            if j < one.len() {
                assert(front[j] == one[j]);
            } else if one.len() < j < one.len() + 1 + two.len() {
                assert(front[j] == two[j - one.len() - 1]);
            }
        }
    }
    lemma_split_head(right, '=', front, rest);
    let tail = text::split_of(rest, '=')[0];
    let side = front + tail;
    assert(text::split_of(line, '=')[1] == text::split_of(right, '=')[0]);
    let second = two + seq![','] + tail;
    assert(side =~= one + seq![','] + second);
    lemma_split_first(side, ',', one, second);
    lemma_split_first(second, ',', two, tail);
    lemma_field_of_quoted(p.name);
    lemma_field_of_quoted(p.path);
}

proof fn lemma_project_end_at(lines: Seq<Seq<char>>, k: int, end: int)
    requires
        0 <= k <= end < lines.len(),
        forall|i: int| k <= i < end ==> text::trim_of(#[trigger] lines[i]) != "EndProject"@,
        text::trim_of(lines[end]) == "EndProject"@,
    ensures
        sln::project_end(lines, k) == end,
    decreases end - k,
{
    if k < end {
        lemma_project_end_at(lines, k + 1, end);
    }
}

proof fn lemma_section_end_at(lines: Seq<Seq<char>>, k: int, end: int)
    requires
        0 <= k <= end < lines.len(),
        forall|i: int|
            k <= i < end ==> !text::begins_with(
                text::trim_start_of(#[trigger] lines[i]),
                "EndGlobalSection"@,
            ),
        text::begins_with(text::trim_start_of(lines[end]), "EndGlobalSection"@),
    ensures
        sln::section_end(lines, k) == end,
    decreases end - k,
{
    if k < end {
        lemma_section_end_at(lines, k + 1, end);
    }
}

proof fn lemma_marks()
    ensures
        text::trim_of("EndProject"@) == "EndProject"@,
        text::trim_start_of("Global"@) == "Global"@,
        !text::begins_with("Global"@, "Project("@),
        !text::begins_with("Global"@, "GlobalSection("@),
        "Global"@ != "EndGlobal"@,
        text::trim_start_of("EndGlobal"@) == "EndGlobal"@,
        !text::begins_with("EndGlobal"@, "GlobalSection("@),
{
    reveal_strlit("Project(");
    reveal_strlit("EndProject");
    reveal_strlit("Global");
    reveal_strlit("GlobalSection(");
    reveal_strlit("EndGlobal");
    assert("EndProject"@[0] == 'E');
    assert("EndProject"@.last() == 't');
    assert(text::trim_start_of("EndProject"@) == "EndProject"@);
    assert("Global"@[0] == 'G' && "EndGlobal"@[0] == 'E');
    assert("Global"@.len() == 6 && "EndGlobal"@.len() == 9 && "GlobalSection("@.len() == 14);
}

proof fn lemma_project_mark(p: ProjectView)
    ensures
        text::begins_with(text::trim_start_of(sln::project_line(p)), "Project("@),
        text::trim_of(sln::project_line(p)) != "EndProject"@,
{
    reveal_strlit("Project(\"");
    reveal_strlit("Project(");
    reveal_strlit("EndProject");
    reveal_strlit("\"");
    let line = sln::project_line(p);
    assert(line.take(9) =~= "Project(\""@);
    assert(line[0] == line.take(9)[0] && line[0] == 'P');
    assert(text::trim_start_of(line) == line);
    assert(line.take(8) =~= "Project("@) by {
        assert forall|j: int| 0 <= j < 8 implies line[j] == #[trigger] "Project("@[j] by {
            assert(line.take(9)[j] == line[j]);
        }
    }
    assert(line.last() == '"');
    assert(text::trim_end_of(line) == line);
    assert("EndProject"@[0] == 'E');
}

proof fn lemma_project_at(lines: Seq<Seq<char>>, k: int, p: ProjectView)
    requires
        is_sound_project(p),
        0 <= k,
        k + p.section.len() + 2 <= lines.len(),
        lines[k] == sln::project_line(p),
        lines.subrange(k + 1, k + 1 + p.section.len()) == p.section,
        lines[k + 1 + p.section.len()] == "EndProject"@,
    ensures
        sln::project_at(lines, k) == Ok::<(ProjectView, int), SlnFault>(
            (p, k + 2 + p.section.len()),
        ),
{
    let end = k + 1 + p.section.len();
    lemma_marks();
    lemma_project_mark(p);
    lemma_first_guid(p);
    lemma_last_guid(p);
    lemma_fields(p);
    assert forall|i: int| k <= i < end implies text::trim_of(#[trigger] lines[i])
        != "EndProject"@ by {
        if i > k {
            assert(lines.subrange(k + 1, end)[i - k - 1] == lines[i]);
            assert(p.section[i - k - 1] == lines[i]);
        }
    }
    lemma_project_end_at(lines, k, end);
}

proof fn lemma_section_at(lines: Seq<Seq<char>>, k: int, s: SectionView)
    requires
        is_sound_section(s),
        0 <= k,
        k + s.lines.len() + 2 <= lines.len(),
        lines[k] == s.header,
        lines.subrange(k + 1, k + 1 + s.lines.len()) == s.lines,
        lines[k + 1 + s.lines.len()] == s.footer,
    ensures
        sln::section_at(lines, k) == Ok::<(SectionView, int), SlnFault>(
            (s, k + 2 + s.lines.len()),
        ),
{
    let end = k + 1 + s.lines.len();
    assert forall|i: int| k + 1 <= i < end implies !text::begins_with(
        text::trim_start_of(#[trigger] lines[i]),
        "EndGlobalSection"@,
    ) by {
        assert(lines.subrange(k + 1, end)[i - k - 1] == lines[i]);
        assert(s.lines[i - k - 1] == lines[i]);
    }
    lemma_section_end_at(lines, k + 1, end);
}

proof fn lemma_sections_run(
    lines: Seq<Seq<char>>,
    k: int,
    before: Seq<SectionView>,
    rest: Seq<SectionView>,
)
    requires
        0 <= k,
        lines.skip(k) == ended_sections(rest),
        k <= lines.len(),
        forall|i: int| 0 <= i < rest.len() ==> is_sound_section(#[trigger] rest[i]),
    ensures
        sln::sections_from(lines, k, before) == Ok::<Seq<SectionView>, SlnFault>(before + rest),
    decreases rest.len(),
{
    let tail = lines.skip(k);
    lemma_marks();
    if rest.len() == 0 {
        assert(tail =~= seq!["EndGlobal"@]);
        assert(tail[0] == lines[k]);
        assert(before + rest =~= before);
    } else {
        let s = rest[0];
        let later = rest.skip(1);
        let block = seq![s.header] + s.lines + seq![s.footer];
        let next = k + 2 + s.lines.len();
        assert(is_sound_section(s));
        assert(tail =~= block + ended_sections(later));
        assert(tail[0] == lines[k]);
        assert(tail[1int + s.lines.len()] == lines[k + 1 + s.lines.len()]);
        assert(lines.subrange(k + 1, k + 1 + s.lines.len()) =~= s.lines) by {
            assert forall|j: int| 0 <= j < s.lines.len() implies lines[k + 1 + j]
                == #[trigger] s.lines[j] by {
                assert(tail[1 + j] == lines[k + 1 + j]);
            }
        }
        lemma_section_at(lines, k, s);
        assert(lines.skip(next) =~= ended_sections(later)) by {
            assert forall|j: int| 0 <= j < ended_sections(later).len() implies lines[next + j]
                == #[trigger] ended_sections(later)[j] by {
                assert(tail[2 + s.lines.len() + j] == lines[next + j]);
            }
        }
        assert forall|i: int| 0 <= i < later.len() implies is_sound_section(
            #[trigger] later[i],
        ) by {
            assert(later[i] == rest[i + 1]);
        }
        lemma_sections_run(lines, next, before.push(s), later);
        assert(before.push(s) + later =~= before + rest);
    }
}

spec fn ended_sections(sections: Seq<SectionView>) -> Seq<Seq<char>>
    decreases sections.len(),
{
    if sections.len() == 0 {
        seq!["EndGlobal"@]
    } else {
        let s = sections[0];
        seq![s.header] + s.lines + seq![s.footer] + ended_sections(sections.skip(1))
    }
}

spec fn ended_projects(projects: Seq<ProjectView>, sections: Seq<SectionView>) -> Seq<Seq<char>>
    decreases projects.len(),
{
    if projects.len() == 0 {
        seq!["Global"@] + ended_sections(sections)
    } else {
        let p = projects[0];
        seq![sln::project_line(p)] + p.section + seq!["EndProject"@] + ended_projects(
            projects.skip(1),
            sections,
        )
    }
}

proof fn lemma_projects_run(
    lines: Seq<Seq<char>>,
    k: int,
    header: Seq<Seq<char>>,
    before: Seq<ProjectView>,
    rest: Seq<ProjectView>,
    sections: Seq<SectionView>,
    newline: Seq<char>,
)
    requires
        0 <= k <= lines.len(),
        lines.skip(k) == ended_projects(rest, sections),
        forall|i: int| 0 <= i < rest.len() ==> is_sound_project(#[trigger] rest[i]),
        forall|i: int| 0 <= i < sections.len() ==> is_sound_section(#[trigger] sections[i]),
    ensures
        sln::sln_from(lines, k, header, before, newline) == Ok::<SlnView, SlnFault>(
            SlnView { header, projects: before + rest, sections, newline },
        ),
    decreases rest.len(),
{
    let tail = lines.skip(k);
    if rest.len() == 0 {
        lemma_marks();
        assert(tail =~= seq!["Global"@] + ended_sections(sections));
        assert(tail[0] == lines[k]);
        assert(lines.skip(k + 1) =~= ended_sections(sections)) by {
            assert forall|j: int| 0 <= j < ended_sections(sections).len() implies lines[k + 1 + j]
                == #[trigger] ended_sections(sections)[j] by {
                assert(tail[1 + j] == lines[k + 1 + j]);
            }
        }
        lemma_sections_run(lines, k + 1, Seq::empty(), sections);
        assert(Seq::<SectionView>::empty() + sections =~= sections);
        assert(sln::sections_from(lines, k, Seq::empty()) == sln::sections_from(
            lines,
            k + 1,
            Seq::empty(),
        ));
        assert(before + rest =~= before);
    } else {
        let p = rest[0];
        let later = rest.skip(1);
        let next = k + 2 + p.section.len();
        let more = ended_projects(later, sections);
        assert(is_sound_project(p));
        lemma_project_mark(p);
        assert(tail =~= seq![sln::project_line(p)] + p.section + seq!["EndProject"@] + more);
        assert(tail[0] == lines[k]);
        assert(tail[1int + p.section.len()] == lines[k + 1 + p.section.len()]);
        assert(lines.subrange(k + 1, k + 1 + p.section.len()) =~= p.section) by {
            assert forall|j: int| 0 <= j < p.section.len() implies lines[k + 1 + j]
                == #[trigger] p.section[j] by {
                assert(tail[1 + j] == lines[k + 1 + j]);
            }
        }
        lemma_project_at(lines, k, p);
        assert(lines.skip(next) =~= more) by {
            assert forall|j: int| 0 <= j < more.len() implies lines[next + j]
                == #[trigger] more[j] by {
                assert(tail[2 + p.section.len() + j] == lines[next + j]);
            }
        }
        assert forall|i: int| 0 <= i < later.len() implies is_sound_project(
            #[trigger] later[i],
        ) by {
            assert(later[i] == rest[i + 1]);
        }
        lemma_projects_run(lines, next, header, before.push(p), later, sections, newline);
        assert(before.push(p) + later =~= before + rest);
    }
}

proof fn lemma_header_run(
    lines: Seq<Seq<char>>,
    k: int,
    header: Seq<Seq<char>>,
    newline: Seq<char>,
)
    requires
        0 <= k <= header.len() <= lines.len(),
        lines.take(header.len() as int) == header,
        forall|i: int| 0 <= i < header.len() ==> is_header_line(#[trigger] header[i]),
    ensures
        sln::sln_from(lines, k, header.take(k), Seq::empty(), newline) == sln::sln_from(
            lines,
            header.len() as int,
            header,
            Seq::empty(),
            newline,
        ),
    decreases header.len() - k,
{
    if k < header.len() {
        assert(lines.take(header.len() as int)[k] == lines[k]);
        assert(is_header_line(header[k]));
        assert(header.take(k).push(header[k]) =~= header.take(k + 1));
        lemma_header_run(lines, k + 1, header, newline);
    } else {
        assert(header.take(k) =~= header);
    }
}

proof fn lemma_section_lines(sections: Seq<SectionView>)
    ensures
        sln::section_lines(sections).push("EndGlobal"@) == ended_sections(sections),
    decreases sections.len(),
{
    if sections.len() == 0 {
        assert(sln::section_lines(sections).push("EndGlobal"@) =~= ended_sections(sections));
    } else {
        let s = sections[0];
        let block = seq![s.header] + s.lines + seq![s.footer];
        lemma_section_lines(sections.skip(1));
        lemma_section_lines_first(sections);
        assert(sln::section_lines(sections).push("EndGlobal"@) =~= block + sln::section_lines(
            sections.skip(1),
        ).push("EndGlobal"@));
    }
}

proof fn lemma_section_lines_first(sections: Seq<SectionView>)
    requires
        sections.len() > 0,
    ensures
        sln::section_lines(sections) == seq![sections[0].header] + sections[0].lines
            + seq![sections[0].footer] + sln::section_lines(sections.skip(1)),
    decreases sections.len(),
{
    let s = sections[0];
    let block = seq![s.header] + s.lines + seq![s.footer];
    let later = sections.skip(1);
    if sections.len() == 1 {
        assert(sections.drop_last() =~= Seq::empty());
        assert(later =~= Seq::empty());
        assert(sln::section_lines(sections.drop_last()) =~= Seq::empty());
        assert(sln::section_lines(sections) =~= block + sln::section_lines(later));
    } else {
        let front = sections.drop_last();
        let last = sections.last();
        lemma_section_lines_first(front);
        assert(front.skip(1) =~= later.drop_last());
        assert(later.last() == last);
        assert(sln::section_lines(sections) =~= block + ((sln::section_lines(
            later.drop_last(),
        ).push(last.header) + last.lines).push(last.footer)));
    }
}

proof fn lemma_project_lines_first(projects: Seq<ProjectView>)
    requires
        projects.len() > 0,
    ensures
        sln::project_lines(projects) == seq![sln::project_line(projects[0])] + projects[0].section
            + seq!["EndProject"@] + sln::project_lines(projects.skip(1)),
    decreases projects.len(),
{
    let p = projects[0];
    let block = seq![sln::project_line(p)] + p.section + seq!["EndProject"@];
    let later = projects.skip(1);
    if projects.len() == 1 {
        assert(projects.drop_last() =~= Seq::empty());
        assert(later =~= Seq::empty());
        assert(sln::project_lines(projects.drop_last()) =~= Seq::empty());
        assert(sln::project_lines(projects) =~= block + sln::project_lines(later));
    } else {
        let front = projects.drop_last();
        let last = projects.last();
        lemma_project_lines_first(front);
        assert(front.skip(1) =~= later.drop_last());
        assert(later.last() == last);
        assert(sln::project_lines(projects) =~= block + ((sln::project_lines(
            later.drop_last(),
        ).push(sln::project_line(last)) + last.section).push("EndProject"@)));
    }
}

proof fn lemma_project_lines(projects: Seq<ProjectView>, sections: Seq<SectionView>)
    ensures
        sln::project_lines(projects) + (seq!["Global"@] + ended_sections(sections))
            == ended_projects(projects, sections),
    decreases projects.len(),
{
    if projects.len() == 0 {
        assert(sln::project_lines(projects) =~= Seq::empty());
        assert(sln::project_lines(projects) + (seq!["Global"@] + ended_sections(sections))
            =~= ended_projects(projects, sections));
    } else {
        let p = projects[0];
        let block = seq![sln::project_line(p)] + p.section + seq!["EndProject"@];
        let rest = seq!["Global"@] + ended_sections(sections);
        lemma_project_lines(projects.skip(1), sections);
        lemma_project_lines_first(projects);
        assert(sln::project_lines(projects) + rest =~= block + (sln::project_lines(
            projects.skip(1),
        ) + rest));
    }
}

/// The solution that is read from the text of a well-formed solution is that solution, so what is
/// read from a well-formed file is written back byte for byte as it was.
pub proof fn law_what_is_read_is_written_back(solution: SlnView)
    requires
        is_sound(solution),
    ensures
        sln::sln_of(sln::sln_text(solution)) == Ok::<SlnView, SlnFault>(solution),
        sln::sln_of(sln::sln_text(solution)) matches Ok(read) && sln::sln_text(read)
            == sln::sln_text(solution),
{
    let lines = sln::sln_lines(solution);
    let header = solution.header;
    let newline = solution.newline;
    lemma_join_is_ended(lines, newline);
    lemma_lines_of_ended(lines, newline);
    lemma_newline_of_ended(lines, newline);
    lemma_section_lines(solution.sections);
    lemma_project_lines(solution.projects, solution.sections);
    let rest = ended_projects(solution.projects, solution.sections);
    assert(lines =~= header + (sln::project_lines(solution.projects) + (seq!["Global"@]
        + ended_sections(solution.sections)))) by {
        assert(sln::section_lines(solution.sections).push("EndGlobal"@) == ended_sections(
            solution.sections,
        ));
        assert(lines =~= (header + sln::project_lines(solution.projects)).push("Global"@)
            + sln::section_lines(solution.sections).push("EndGlobal"@));
    }
    assert(lines == header + rest);
    assert(lines.take(header.len() as int) =~= header);
    assert(lines.skip(header.len() as int) =~= rest);
    assert(header.take(0) =~= Seq::empty());
    lemma_header_run(lines, 0, header, newline);
    lemma_projects_run(
        lines,
        header.len() as int,
        header,
        Seq::empty(),
        solution.projects,
        solution.sections,
        newline,
    );
    assert(Seq::<ProjectView>::empty() + solution.projects =~= solution.projects);
}

} // verus!
