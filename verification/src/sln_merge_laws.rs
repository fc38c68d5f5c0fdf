//! What merging solutions comes to, source by source.

use crate::paths::{self, PathStyle};
use crate::sln::{self, ProjectView, SectionView, SlnData, SlnError, SlnFault, SlnView};
use crate::sln_merge_again;
use crate::sln_merge_kit::{self, Added, MergeState, SourceSolution, SourceView};
use crate::text;
use crate::text_laws;
use vstd::prelude::*;

verus! {

/// The first opening brace of the line begins the identifier, and the first closing brace behind
/// it ends it.
pub open spec fn is_first_id(line: Seq<char>, g: Seq<char>) -> bool {
    exists|i: int, j: int|
        0 <= i < j < line.len() && #[trigger] line[i] == '{' && #[trigger] line[j] == '}'
            && text_laws::lacks(line.take(i), '{') && text_laws::lacks(line.subrange(i, j), '}')
            && g == line.subrange(i, j + 1)
}

pub proof fn lemma_first_id(line: Seq<char>, g: Seq<char>)
    ensures
        is_first_id(line, g) <==> sln::first_guid_in(line) == Some(g),
{
    text::lemma_first_index(line, '{');
    if let Some(i) = text::first_index(line, '{') {
        let tail = line.skip(i);
        text::lemma_first_index(tail, '}');
        if let Some(k) = text::first_index(tail, '}') {
            let j = i + k;
            assert(line[j] == tail[k]);
            assert(k > 0);
            assert(tail.take(k + 1) =~= line.subrange(i, j + 1));
            assert(text_laws::lacks(line.take(i), '{'));
            assert forall|m: int| 0 <= m < j - i implies #[trigger] line.subrange(i, j)[m]
                != '}' by {
                assert(line.subrange(i, j)[m] == tail[m]);
            }
            assert(text_laws::lacks(line.subrange(i, j), '}'));
            if sln::first_guid_in(line) == Some(g) {
                assert(line[i] == '{' && line[j] == '}');
            }
        }
    }
    if is_first_id(line, g) {
        let (i, j) = choose|i: int, j: int|
            0 <= i < j < line.len() && #[trigger] line[i] == '{' && #[trigger] line[j] == '}'
                && text_laws::lacks(line.take(i), '{') && text_laws::lacks(
                line.subrange(i, j),
                '}',
            ) && g == line.subrange(i, j + 1);
        let first = text::first_index(line, '{')->0;
        if first < i {
            assert(line.take(i)[first] == '{');
        }
        assert(first == i);
        let tail = line.skip(i);
        assert(tail[j - i] == '}');
        let k = text::first_index(tail, '}')->0;
        if k < j - i {
            assert(line.subrange(i, j)[k] == tail[k]);
        }
        assert(k == j - i);
        assert(tail.take(k + 1) =~= line.subrange(i, j + 1));
    }
}

/// The last opening brace of a line begins the identifier that is extracted from it, and the first
/// closing brace behind it ends it.
pub proof fn law_last_identifier(before: Seq<char>, id: Seq<char>, after: Seq<char>)
    requires
        text_laws::lacks(id, '{'),
        text_laws::lacks(id, '}'),
        text_laws::lacks(after, '{'),
    ensures
        sln::last_guid_in(before + seq!['{'] + id + seq!['}'] + after) == Some(
            seq!['{'] + id + seq!['}'],
        ),
{
    let line = before + seq!['{'] + id + seq!['}'] + after;
    let n = before.len() as int;
    text::lemma_last_index(line, '{');
    assert(line[n] == '{');
    let i = text::last_index(line, '{')->0;
    if i > n {
        if i <= n + id.len() {
            assert(line[i] == id[i - n - 1]);
        } else if i > n + id.len() + 1 {
            assert(line[i] == after[i - n - id.len() - 2]);
        }
    }
    let tail = line.skip(n);
    text::lemma_first_index(tail, '}');
    assert(tail[id.len() + 1int] == '}');
    let k = text::first_index(tail, '}')->0;
    if 0 < k < id.len() + 1 {
        assert(tail[k] == id[k - 1]);
    }
    assert(tail.take(id.len() + 2int) =~= seq!['{'] + id + seq!['}']);
}

/// One of the projects has the identifier that is the first in the line.
pub open spec fn is_about(line: Seq<char>, projects: Seq<ProjectView>) -> bool {
    exists|q: int|
        0 <= q < projects.len() && is_first_id(line, (#[trigger] projects[q]).guid)
}

/// One of the paths is this one.
pub open spec fn is_among(style: char, known: Seq<Seq<char>>, path: Seq<char>) -> bool {
    exists|k: int|
        0 <= k < known.len() && (#[trigger] known[k] == path || paths::same_path(
            style,
            known[k],
            path,
        ))
}

proof fn lemma_among(style: char)
    ensures
        forall|known: Seq<Seq<char>>, path: Seq<char>| #[trigger]
            is_among(style, known, path) == sln_merge_kit::is_known(style, known, path),
        forall|known: Seq<Seq<char>>, path: Seq<char>| #[trigger]
            sln_merge_kit::is_known(style, known, path) == is_among(style, known, path),
{
}

/// The path under which a project of a source is known: that of a file from the target, that of a
/// folder below the folder of the source.
pub open spec fn known_as(
    style: char,
    folder: Seq<char>,
    relative: Seq<char>,
    source: SlnView,
    p: ProjectView,
) -> Seq<char> {
    if p.is_file {
        paths::joined_path(style, relative, p.path)
    } else {
        paths::joined_path(style, folder, sln_merge_kit::folder_path(style, source, p.guid)->0)
    }
}

/// The projects that are taken over are known from then on, were not before, and none of them
/// builds everything.
pub open spec fn are_new(
    style: char,
    folder: Seq<char>,
    relative: Seq<char>,
    source: SlnView,
    picks: Seq<int>,
    before: Seq<Seq<char>>,
    after: Seq<Seq<char>>,
) -> bool {
    &&& after.len() == before.len() + picks.len()
    &&& after.take(before.len() as int) == before
    &&& forall|k: int|
        0 <= k < picks.len() ==> {
            let p = source.projects[#[trigger] picks[k]];
            &&& after[before.len() + k] == known_as(style, folder, relative, source, p)
            &&& !is_among(style, after.take(before.len() + k), after[before.len() + k])
            &&& p.is_file ==> p.name != "ALL_BUILD"@
            &&& !p.is_file ==> sln_merge_kit::folder_path(style, source, p.guid) is Some
        }
}

/// The project of a source as it is taken over: a file under its path from the target, a folder
/// with the type of folders.
pub open spec fn taken_over(
    style: char,
    relative: Seq<char>,
    first_type: Seq<char>,
    p: ProjectView,
) -> ProjectView {
    if p.is_file {
        ProjectView { path: paths::joined_path(style, relative, p.path), ..p }
    } else {
        ProjectView { first_guid: first_type, ..p }
    }
}

/// The projects are those at these places of the source, in the order of the source.
pub open spec fn are_taken(
    style: char,
    relative: Seq<char>,
    first_type: Seq<char>,
    source: SlnView,
    picks: Seq<int>,
    projects: Seq<ProjectView>,
) -> bool {
    &&& projects.len() == picks.len()
    &&& forall|k: int, m: int| 0 <= k < m < picks.len() ==> #[trigger] picks[k] < #[trigger] picks[m]
    &&& forall|k: int| 0 <= k < picks.len() ==> 0 <= #[trigger] picks[k] < source.projects.len()
    &&& forall|k: int|
        0 <= k < picks.len() ==> #[trigger] projects[k] == taken_over(
            style,
            relative,
            first_type,
            source.projects[picks[k]],
        )
}

/// A project that is not taken over builds everything, or is at a path that is known.
pub open spec fn are_known_otherwise(
    style: char,
    folder: Seq<char>,
    relative: Seq<char>,
    source: SlnView,
    picks: Seq<int>,
    known: Seq<Seq<char>>,
) -> bool {
    forall|j: int|
        0 <= j < source.projects.len() && !picks.contains(j) ==> {
            let p = #[trigger] source.projects[j];
            if p.is_file {
                p.name == "ALL_BUILD"@ || is_among(
                    style,
                    known,
                    paths::joined_path(style, relative, p.path),
                )
            } else {
                sln_merge_kit::folder_path(style, source, p.guid) matches Some(inner)
                    && is_among(
                    style,
                    known,
                    paths::joined_path(style, folder, inner),
                )
            }
        }
}

/// The lines nest each of the projects once: by the first line of the source about it, or under
/// the folder of the source where there is none.
pub open spec fn are_nested(
    source_lines: Seq<Seq<char>>,
    indent: Seq<char>,
    folder_guid: Seq<char>,
    projects: Seq<ProjectView>,
    lines: Seq<Seq<char>>,
) -> bool {
    &&& forall|q: int|
        0 <= q < projects.len() ==> is_nested_by(
            source_lines,
            indent,
            folder_guid,
            (#[trigger] projects[q]).guid,
            lines,
        )
    &&& lines.len() == projects.map_values(|p: ProjectView| p.guid).to_set().len()
    &&& exists|places: Seq<int>| #[trigger]
        are_in_order(source_lines, indent, folder_guid, projects, lines, places)
}

/// The first lines are those at these places of the source, in the order of the source, and all
/// others nest a project under the folder.
pub open spec fn are_in_order(
    source_lines: Seq<Seq<char>>,
    indent: Seq<char>,
    folder_guid: Seq<char>,
    projects: Seq<ProjectView>,
    lines: Seq<Seq<char>>,
    places: Seq<int>,
) -> bool {
    &&& places.len() <= lines.len()
    &&& are_picked(source_lines, lines.take(places.len() as int), places)
    &&& forall|i: int|
        places.len() <= i < lines.len() ==> is_under(
            indent,
            folder_guid,
            projects,
            #[trigger] lines[i],
        )
}

/// The lines are those at these rising places.
pub open spec fn are_picked(
    source_lines: Seq<Seq<char>>,
    lines: Seq<Seq<char>>,
    places: Seq<int>,
) -> bool {
    &&& places.len() == lines.len()
    &&& forall|i: int|
        0 <= i < places.len() ==> 0 <= #[trigger] places[i] < source_lines.len() && lines[i]
            == source_lines[places[i]]
    &&& forall|i: int, j: int|
        0 <= i < j < places.len() ==> #[trigger] places[i] < #[trigger] places[j]
}

/// The line nests one of the projects under the folder.
pub open spec fn is_under(
    indent: Seq<char>,
    folder_guid: Seq<char>,
    projects: Seq<ProjectView>,
    line: Seq<char>,
) -> bool {
    exists|q: int|
        0 <= q < projects.len() && line == indent + (#[trigger] projects[q]).guid + " = "@
            + folder_guid
}

/// The lines nest the project by the first line of the source about it, or under the folder of the
/// source where there is none.
pub open spec fn is_nested_by(
    source_lines: Seq<Seq<char>>,
    indent: Seq<char>,
    folder_guid: Seq<char>,
    g: Seq<char>,
    lines: Seq<Seq<char>>,
) -> bool {
    &&& forall|k: int|
        0 <= k < source_lines.len() && is_first_id(#[trigger] source_lines[k], g) && (forall|m: int|
            0 <= m < k ==> !is_first_id(#[trigger] source_lines[m], g)) ==> lines.contains(
            source_lines[k],
        )
    &&& (forall|k: int|
        0 <= k < source_lines.len() ==> !is_first_id(#[trigger] source_lines[k], g))
        ==> lines.contains(indent + g + " = "@ + folder_guid)
}

/// Only the sections for the configurations and the nesting of projects get other lines.
pub open spec fn are_other_sections_kept(
    before: Seq<SectionView>,
    after: Seq<SectionView>,
) -> bool {
    &&& after.len() == before.len()
    &&& forall|i: int|
        0 <= i < before.len() ==> {
            let s = #[trigger] after[i];
            &&& s == (SectionView { lines: s.lines, ..before[i] })
            &&& s.name != "ProjectConfigurationPlatforms"@ && s.name != "NestedProjects"@
                ==> s.lines == before[i].lines
        }
}

/// `after` is what merging a source that was read makes of `before`: the source's folder, unless
/// it is known, then projects of the source, with all lines of the source that configure one of
/// them, and with their nesting.
pub open spec fn is_merged_with(
    style: char,
    relative: Seq<char>,
    first_type: Seq<char>,
    folder: Seq<char>,
    source: SlnView,
    before: MergeState,
    after: MergeState,
    picks: Seq<int>,
) -> bool {
    let n = before.target.projects.len() as int;
    let at = if is_among(style, before.known, folder) {
        n
    } else {
        n + 1
    };
    let own = after.target.projects.skip(at);
    let configured = |s: SlnView|
        sln_merge_kit::lines_of_section(s.sections, "ProjectConfigurationPlatforms"@);
    let nested = |s: SlnView| sln_merge_kit::lines_of_section(s.sections, "NestedProjects"@);
    &&& after.target.header == before.target.header
    &&& after.target.newline == before.target.newline
    &&& at <= after.target.projects.len()
    &&& after.target.projects.take(n) == before.target.projects
    &&& at == n + 1 ==> after.target.projects[n] == (ProjectView {
        first_guid: first_type,
        name: folder,
        guid: "{"@ + sln_merge_kit::named_uuid(0x6ba7b8109dad11d180b400c04fd430c8, folder) + "}"@,
        path: folder,
        section: Seq::empty(),
        is_file: false,
    })
    &&& are_taken(style, relative, first_type, source, picks, own)
    &&& are_new(style, folder, relative, source, picks, before.known, after.known)
    &&& are_known_otherwise(style, folder, relative, source, picks, after.known)
    &&& configured(after.target) == configured(before.target) + configured(source).filter(
        |line: Seq<char>| is_about(line, own),
    )
    &&& are_other_sections_kept(before.target.sections, after.target.sections)
    &&& nested(before.target).is_prefix_of(nested(after.target))
    &&& are_nested(
        nested(source),
        if nested(before.target).len() > 0 {
            text::leading_space(nested(before.target)[0])
        } else {
            "        "@
        },
        "{"@ + sln_merge_kit::named_uuid(0x6ba7b8109dad11d180b400c04fd430c8, folder) + "}"@,
        own,
        nested(after.target).skip(nested(before.target).len() as int),
    )
}

/// The places of the projects of the source that are taken over, among the first `n`.
spec fn picked(
    style: char,
    source: SlnView,
    folder: Seq<char>,
    relative: Seq<char>,
    first_type: Seq<char>,
    start: Added,
    n: int,
) -> Seq<int>
    decreases n,
{
    if n <= 0 {
        Seq::empty()
    } else {
        let before = picked(style, source, folder, relative, first_type, start, n - 1);
        let one = sln_merge_kit::add_projects(
            style,
            source,
            folder,
            relative,
            first_type,
            start,
            n - 1,
        );
        let other = sln_merge_kit::add_projects(
            style,
            source,
            folder,
            relative,
            first_type,
            start,
            n,
        );
        if one is Some && other is Some && other->0.projects.len() > one->0.projects.len() {
            before.push(n - 1)
        } else {
            before
        }
    }
}

/// What adding the first `n` projects of a source comes to.
spec fn is_picked(
    style: char,
    source: SlnView,
    folder: Seq<char>,
    relative: Seq<char>,
    first_type: Seq<char>,
    start: Added,
    after: Added,
    picks: Seq<int>,
    n: int,
) -> bool {
    &&& after.projects.len() == start.projects.len() + picks.len()
    &&& after.projects.take(start.projects.len() as int) == start.projects
    &&& are_taken(
        style,
        relative,
        first_type,
        source,
        picks,
        after.projects.skip(start.projects.len() as int),
    )
    &&& forall|k: int| 0 <= k < picks.len() ==> #[trigger] picks[k] < n
    &&& are_new(style, folder, relative, source, picks, start.known, after.known)
    &&& after.guids.no_duplicates()
    &&& after.guids.to_set() == after.projects.skip(start.projects.len() as int).map_values(
        |p: ProjectView| p.guid,
    ).to_set()
}

proof fn lemma_picked(
    style: char,
    source: SlnView,
    folder: Seq<char>,
    relative: Seq<char>,
    first_type: Seq<char>,
    start: Added,
    n: int,
)
    requires
        0 <= n <= source.projects.len(),
        start.guids.len() == 0,
        sln_merge_kit::add_projects(style, source, folder, relative, first_type, start, n) is Some,
    ensures
        is_picked(
            style,
            source,
            folder,
            relative,
            first_type,
            start,
            sln_merge_kit::add_projects(style, source, folder, relative, first_type, start, n)->0,
            picked(style, source, folder, relative, first_type, start, n),
            n,
        ),
    decreases n,
{
    let guid = |p: ProjectView| p.guid;
    let at = start.projects.len() as int;
    let after = sln_merge_kit::add_projects(
        style,
        source,
        folder,
        relative,
        first_type,
        start,
        n,
    )->0;
    lemma_among(style);
    if n == 0 {
        assert(after.projects.take(at) =~= start.projects);
        assert(after.known.take(start.known.len() as int) =~= start.known);
        let none = after.projects.skip(at).map_values(guid);
        assert(none =~= Seq::empty());
        assert(after.guids =~= Seq::empty());
        assert(after.guids.to_set() =~= none.to_set());
    } else {
        lemma_picked(style, source, folder, relative, first_type, start, n - 1);
        let before = sln_merge_kit::add_projects(
            style,
            source,
            folder,
            relative,
            first_type,
            start,
            n - 1,
        )->0;
        let p = source.projects[n - 1];
        let x = taken_over(style, relative, first_type, p);
        let own = before.projects.skip(at);
        assert(after == before || (after.projects =~= before.projects.push(x) && after.guids
            == sln_merge_kit::with_text(before.guids, p.guid)));
        if after.projects.len() > before.projects.len() {
            let picks = picked(style, source, folder, relative, first_type, start, n);
            let m = start.known.len() as int;
            assert(after.known =~= before.known.push(
                known_as(style, folder, relative, source, p),
            ));
            assert(after.known.take(m) =~= before.known.take(m));
            assert forall|k: int| 0 <= k < picks.len() implies {
                let p = source.projects[#[trigger] picks[k]];
                &&& after.known[m + k] == known_as(style, folder, relative, source, p)
                &&& !is_among(style, after.known.take(m + k), after.known[m + k])
                &&& p.is_file ==> p.name != "ALL_BUILD"@
                &&& !p.is_file ==> sln_merge_kit::folder_path(style, source, p.guid) is Some
            } by {
                if k < picks.len() - 1 {
                    assert(after.known.take(m + k) =~= before.known.take(m + k));
                    let less = picked(style, source, folder, relative, first_type, start, n - 1);
                    assert(picks[k] == less[k]);
                } else {
                    assert(after.known.take(m + k) =~= before.known);
                }
            }
            assert(after.projects.take(at) =~= before.projects.take(at));
            let more = after.projects.skip(at);
            assert(more =~= own.push(x));
            assert(more.map_values(guid) =~= own.map_values(guid).push(p.guid));
            lemma_push_set(own.map_values(guid), p.guid);
            lemma_push_set(before.guids, p.guid);
            if before.guids.contains(p.guid) {
                assert(before.guids.to_set().contains(p.guid));
                assert(before.guids.to_set().insert(p.guid) =~= before.guids.to_set());
            }
        }
    }
}

proof fn lemma_push_set(list: Seq<Seq<char>>, x: Seq<char>)
    ensures
        list.push(x).to_set() == list.to_set().insert(x),
{
    let more = list.push(x);
    assert forall|y: Seq<char>| more.to_set().contains(y) <==> list.to_set().insert(x).contains(
        y,
    ) by {
        if more.contains(y) && y != x {
            assert(list[more.index_of(y)] == y);
        }
        if list.contains(y) {
            assert(more[list.index_of(y)] == y);
        }
        assert(more[list.len() as int] == x);
    }
    assert(more.to_set() =~= list.to_set().insert(x));
}

proof fn lemma_lines_about(
    lines: Seq<Seq<char>>,
    guids: Seq<Seq<char>>,
    projects: Seq<ProjectView>,
)
    requires
        guids.to_set() == projects.map_values(|p: ProjectView| p.guid).to_set(),
    ensures
        sln_merge_kit::lines_about(lines, guids) == lines.filter(
            |line: Seq<char>| is_about(line, projects),
        ),
    decreases lines.len(),
{
    reveal(Seq::filter);
    if lines.len() > 0 {
        lemma_lines_about(lines.drop_last(), guids, projects);
        let line = lines.last();
        lemma_about(line, guids, projects);
    }
}

proof fn lemma_about(line: Seq<char>, guids: Seq<Seq<char>>, projects: Seq<ProjectView>)
    requires
        guids.to_set() == projects.map_values(|p: ProjectView| p.guid).to_set(),
    ensures
        is_about(line, projects) <==> sln::first_guid_in(line) is Some && guids.contains(
            sln::first_guid_in(line)->0,
        ),
{
    let all = projects.map_values(|p: ProjectView| p.guid);
    if is_about(line, projects) {
        let q = choose|q: int|
            0 <= q < projects.len() && is_first_id(line, (#[trigger] projects[q]).guid);
        lemma_first_id(line, projects[q].guid);
        assert(all[q] == projects[q].guid);
        assert(all.to_set().contains(projects[q].guid));
        assert(guids.to_set().contains(projects[q].guid));
    }
    if let Some(g) = sln::first_guid_in(line) {
        if guids.contains(g) {
            assert(guids.to_set().contains(g));
            assert(all.to_set().contains(g));
            let q = all.index_of(g);
            assert(projects[q].guid == g);
            lemma_first_id(line, g);
        }
    }
}

proof fn lemma_nest_lines(lines: Seq<Seq<char>>, guids: Seq<Seq<char>>)
    requires
        guids.no_duplicates(),
    ensures
        ({
            let (taken, left) = sln_merge_kit::nest_lines(lines, guids);
            &&& left.no_duplicates()
            &&& taken.len() + left.len() == guids.len()
            &&& forall|g: Seq<char>| #[trigger]
                left.contains(g) <==> guids.contains(g) && forall|k: int|
                    0 <= k < lines.len() ==> !is_first_id(#[trigger] lines[k], g)
            &&& forall|g: Seq<char>, k: int|
                guids.contains(g) && 0 <= k < lines.len() && #[trigger] is_first_id(lines[k], g)
                    && (forall|m: int| 0 <= m < k ==> !is_first_id(#[trigger] lines[m], g))
                    ==> taken.contains(lines[k])
        }),
    decreases lines.len(),
{
    if lines.len() > 0 {
        let front = lines.drop_last();
        let line = lines.last();
        lemma_nest_lines(front, guids);
        let (taken, left) = sln_merge_kit::nest_lines(front, guids);
        let (all, rest) = sln_merge_kit::nest_lines(lines, guids);
        let n = front.len() as int;
        assert(lines[n] == line);
        assert(forall|k: int| 0 <= k < n ==> #[trigger] lines[k] == front[k]);
        assert(forall|k: int| 0 <= k < n ==> #[trigger] front[k] == lines[k]);
        if let Some(h) = sln::first_guid_in(line) {
            if left.contains(h) {
                sln_merge_again::lemma_without_text(left, h);
                lemma_without_one(left, h);
            }
        }
        assert forall|g: Seq<char>| #[trigger] rest.contains(g) <==> guids.contains(g) && forall|
            k: int,
        |
            0 <= k < lines.len() ==> !is_first_id(#[trigger] lines[k], g) by {
            lemma_first_id(line, g);
            if rest.contains(g) {
                assert(left.contains(g));
                assert forall|k: int| 0 <= k < lines.len() implies !is_first_id(
                    #[trigger] lines[k],
                    g,
                ) by {
                    if k < n {
                        assert(!is_first_id(front[k], g));
                    }
                }
            }
            if guids.contains(g) && forall|k: int|
                0 <= k < lines.len() ==> !is_first_id(#[trigger] lines[k], g) {
                assert forall|k: int| 0 <= k < n implies !is_first_id(#[trigger] front[k], g) by {
                    assert(!is_first_id(lines[k], g));
                }
                assert(left.contains(g));
                assert(!is_first_id(lines[n], g));
            }
        }
        assert forall|g: Seq<char>, k: int|
            guids.contains(g) && 0 <= k < lines.len() && #[trigger] is_first_id(lines[k], g) && (
            forall|m: int| 0 <= m < k ==> !is_first_id(#[trigger] lines[m], g)) implies all.contains(
            lines[k],
        ) by {
            if k < n {
                assert(is_first_id(front[k], g));
                assert forall|m: int| 0 <= m < k implies !is_first_id(#[trigger] front[m], g) by {
                    assert(!is_first_id(lines[m], g));
                }
                assert(taken.contains(front[k]));
                let i = taken.index_of(front[k]);
                assert(all[i] == taken[i]);
            } else {
                lemma_first_id(line, g);
                assert forall|m: int| 0 <= m < n implies !is_first_id(#[trigger] front[m], g) by {
                    assert(!is_first_id(lines[m], g));
                }
                assert(left.contains(g));
                assert(all[taken.len() as int] == line);
            }
        }
    }
}

proof fn lemma_without_one(list: Seq<Seq<char>>, s: Seq<char>)
    requires
        list.no_duplicates(),
        list.contains(s),
    ensures
        sln_merge_kit::without_text(list, s).len() == list.len() - 1,
        sln_merge_kit::without_text(list, s).no_duplicates(),
    decreases list.len(),
{
    let front = list.drop_last();
    assert(front.no_duplicates()) by {
        assert forall|i: int, j: int|
            0 <= i < front.len() && 0 <= j < front.len() && i != j implies front[i] != front[j] by {
            assert(front[i] == list[i] && front[j] == list[j]);
        }
    }
    if list.last() == s {
        assert(!front.contains(s)) by {
            if front.contains(s) {
                let i = front.index_of(s);
                assert(list[i] == s && list[list.len() - 1] == s);
            }
        }
        lemma_without_none(front, s);
    } else {
        let i = list.index_of(s);
        assert(front[i] == s);
        lemma_without_one(front, s);
        sln_merge_again::lemma_without_text(front, s);
        let rest = sln_merge_kit::without_text(front, s);
        let all = sln_merge_kit::without_text(list, s);
        assert(!front.contains(list.last())) by {
            if front.contains(list.last()) {
                let m = front.index_of(list.last());
                assert(list[m] == list[list.len() - 1]);
            }
        }
        assert(!rest.contains(list.last()));
        assert forall|a: int, b: int|
            0 <= a < all.len() && 0 <= b < all.len() && a != b implies all[a] != all[b] by {
            if a < rest.len() && b == rest.len() {
                assert(rest.contains(rest[a]));
            }
            if b < rest.len() && a == rest.len() {
                assert(rest.contains(rest[b]));
            }
        }
    }
}

proof fn lemma_without_none(list: Seq<Seq<char>>, s: Seq<char>)
    requires
        !list.contains(s),
    ensures
        sln_merge_kit::without_text(list, s) == list,
    decreases list.len(),
{
    if list.len() > 0 {
        assert(list[list.len() - 1] == list.last());
        let front = list.drop_last();
        if front.contains(s) {
            assert(list[front.index_of(s)] == s);
        }
        lemma_without_none(front, s);
        assert(front.push(list.last()) =~= list);
    }
}

proof fn lemma_merged_lines(
    sections: Seq<SectionView>,
    source: SlnView,
    guids: Seq<Seq<char>>,
    f: Seq<char>,
)
    requires
        sln_merge_kit::merge_sections(sections, source, guids, f) is Ok,
    ensures
        ({
            let after = sln_merge_kit::merge_sections(sections, source, guids, f)->Ok_0;
            let old_lines = sln_merge_kit::lines_of_section(sections, "NestedProjects"@);
            let (taken, left) = sln_merge_kit::nest_lines(
                sln_merge_kit::nesting_lines(source),
                guids,
            );
            &&& sln_merge_kit::lines_of_section(after, "ProjectConfigurationPlatforms"@)
                == sln_merge_kit::lines_of_section(sections, "ProjectConfigurationPlatforms"@)
                + sln_merge_kit::lines_about(
                sln_merge_kit::lines_of_section(
                    source.sections,
                    "ProjectConfigurationPlatforms"@,
                ),
                guids,
            )
            &&& sln_merge_kit::lines_of_section(after, "NestedProjects"@) == old_lines + taken
                + sln_merge_kit::lines_under(left, sln_merge_kit::indent_of(old_lines), f)
        }),
{
    let after = sln_merge_kit::merge_sections(sections, source, guids, f)->Ok_0;
    reveal_strlit("ProjectConfigurationPlatforms");
    reveal_strlit("NestedProjects");
    assert("ProjectConfigurationPlatforms"@.len() != "NestedProjects"@.len());
    sln_merge_kit::lemma_section_named(sections, "ProjectConfigurationPlatforms"@);
    let c = sln_merge_kit::section_named(sections, "ProjectConfigurationPlatforms"@)->0;
    let more = sln_merge_kit::lines_about(
        sln_merge_kit::lines_of_section(source.sections, "ProjectConfigurationPlatforms"@),
        guids,
    );
    let configured = sln_merge_kit::with_lines(sections, c, sections[c].lines + more);
    sln_merge_kit::lemma_section_named_by_names(sections, configured, "NestedProjects"@);
    sln_merge_kit::lemma_section_named_by_names(
        sections,
        configured,
        "ProjectConfigurationPlatforms"@,
    );
    sln_merge_kit::lemma_section_named(configured, "NestedProjects"@);
    let n = sln_merge_kit::section_named(configured, "NestedProjects"@)->0;
    sln_merge_kit::lemma_section_named_by_names(configured, after, "NestedProjects"@);
    sln_merge_kit::lemma_section_named_by_names(
        configured,
        after,
        "ProjectConfigurationPlatforms"@,
    );
    assert(n != c);
    assert(configured[n] == sections[n]);
    assert(after[c] == configured[c]);
}

proof fn lemma_nest_order(lines: Seq<Seq<char>>, guids: Seq<Seq<char>>) -> (places: Seq<int>)
    ensures
        are_picked(lines, sln_merge_kit::nest_lines(lines, guids).0, places),
    decreases lines.len(),
{
    if lines.len() == 0 {
        Seq::empty()
    } else {
        let front = lines.drop_last();
        let before = lemma_nest_order(front, guids);
        let (taken, left) = sln_merge_kit::nest_lines(front, guids);
        let all = sln_merge_kit::nest_lines(lines, guids).0;
        assert forall|i: int| 0 <= i < before.len() implies 0 <= #[trigger] before[i] < front.len()
            && taken[i] == lines[before[i]] by {
            assert(front[before[i]] == lines[before[i]]);
        }
        if all.len() > taken.len() {
            let places = before.push(lines.len() - 1);
            assert forall|i: int| 0 <= i < places.len() implies 0 <= #[trigger] places[i]
                < lines.len() && all[i] == lines[places[i]] by {
                if i < before.len() {
                    assert(places[i] == before[i]);
                    assert(all[i] == taken[i]);
                }
            }
            places
        } else {
            before
        }
    }
}

proof fn lemma_nested(
    source_lines: Seq<Seq<char>>,
    guids: Seq<Seq<char>>,
    projects: Seq<ProjectView>,
    old_lines: Seq<Seq<char>>,
    f: Seq<char>,
)
    requires
        guids.no_duplicates(),
        guids.to_set() == projects.map_values(|p: ProjectView| p.guid).to_set(),
    ensures
        ({
            let indent = sln_merge_kit::indent_of(old_lines);
            let (taken, left) = sln_merge_kit::nest_lines(source_lines, guids);
            are_nested(
                source_lines,
                indent,
                f,
                projects,
                taken + sln_merge_kit::lines_under(left, indent, f),
            )
        }),
{
    let indent = sln_merge_kit::indent_of(old_lines);
    let (taken, left) = sln_merge_kit::nest_lines(source_lines, guids);
    let under = sln_merge_kit::lines_under(left, indent, f);
    let lines = taken + under;
    let all = projects.map_values(|p: ProjectView| p.guid);
    lemma_nest_lines(source_lines, guids);
    guids.unique_seq_to_set();
    let places = lemma_nest_order(source_lines, guids);
    assert(lines.take(places.len() as int) =~= taken);
    assert forall|i: int| places.len() <= i < lines.len() implies is_under(
        indent,
        f,
        projects,
        #[trigger] lines[i],
    ) by {
        let g = left[i - taken.len()];
        assert(lines[i] == under[i - taken.len()]);
        assert(left.contains(g));
        assert(guids.to_set().contains(g));
        assert(all.to_set().contains(g));
        let q = all.index_of(g);
        assert(projects[q].guid == g);
    }
    assert(are_in_order(source_lines, indent, f, projects, lines, places));
    assert forall|q: int| 0 <= q < projects.len() implies is_nested_by(
        source_lines,
        indent,
        f,
        (#[trigger] projects[q]).guid,
        lines,
    ) by {
        let g = projects[q].guid;
        assert(all[q] == g);
        assert(all.to_set().contains(g));
        assert(guids.to_set().contains(g));
        assert(guids.contains(g));
        assert forall|k: int|
            0 <= k < source_lines.len() && is_first_id(#[trigger] source_lines[k], g) && (forall|
                m: int,
            |
                0 <= m < k ==> !is_first_id(#[trigger] source_lines[m], g)) implies lines.contains(
            source_lines[k],
        ) by {
            assert(taken.contains(source_lines[k]));
            let i = taken.index_of(source_lines[k]);
            assert(lines[i] == taken[i]);
        }
        if forall|k: int| 0 <= k < source_lines.len() ==> !is_first_id(
            #[trigger] source_lines[k],
            g,
        ) {
            assert(left.contains(g));
            let i = left.index_of(g);
            assert(under[i] == indent + g + " = "@ + f);
            assert(lines[taken.len() + i] == under[i]);
        }
    }
}

proof fn lemma_other_sections(
    sections: Seq<SectionView>,
    source: SlnView,
    guids: Seq<Seq<char>>,
    folder: Seq<char>,
)
    requires
        sln_merge_kit::merge_sections(sections, source, guids, folder) is Ok,
    ensures
        are_other_sections_kept(
            sections,
            sln_merge_kit::merge_sections(sections, source, guids, folder)->Ok_0,
        ),
{
    sln_merge_kit::lemma_section_named(sections, "ProjectConfigurationPlatforms"@);
    let c = sln_merge_kit::section_named(sections, "ProjectConfigurationPlatforms"@)->0;
    let configured = sln_merge_kit::with_lines(
        sections,
        c,
        sections[c].lines + sln_merge_kit::lines_about(
            sln_merge_kit::lines_of_section(source.sections, "ProjectConfigurationPlatforms"@),
            guids,
        ),
    );
    sln_merge_kit::lemma_section_named(configured, "NestedProjects"@);
}

proof fn lemma_merged_with(
    style: char,
    first_type: Seq<char>,
    path: Seq<char>,
    relative: Seq<char>,
    source: SlnView,
    state: MergeState,
) -> (picks: Seq<int>)
    requires
        sln_merge_kit::merge_solution(style, first_type, path, relative, source, state) is Ok,
    ensures
        is_merged_with(
            style,
            relative,
            first_type,
            sln_merge_kit::source_folder(style, path),
            source,
            state,
            sln_merge_kit::merge_solution(style, first_type, path, relative, source, state)->Ok_0,
            picks,
        ),
{
    let folder = sln_merge_kit::source_folder(style, path);
    let f = sln_merge_kit::folder_guid(folder);
    let n = state.target.projects.len() as int;
    let count = source.projects.len() as int;
    let start = Added {
        projects: if sln_merge_kit::is_known(style, state.known, folder) {
            state.target.projects
        } else {
            state.target.projects.push(sln_merge_kit::folder_project(folder, first_type))
        },
        known: state.known,
        guids: Seq::empty(),
    };
    let at = start.projects.len() as int;
    let added = sln_merge_kit::add_projects(
        style,
        source,
        folder,
        relative,
        first_type,
        start,
        count,
    )->0;
    let after = sln_merge_kit::merge_solution(
        style,
        first_type,
        path,
        relative,
        source,
        state,
    )->Ok_0;
    let picks = picked(style, source, folder, relative, first_type, start, count);
    let own = added.projects.skip(at);
    lemma_among(style);
    lemma_picked(style, source, folder, relative, first_type, start, count);
    sln_merge_kit::lemma_added_projects_are_covered(
        style,
        source,
        folder,
        relative,
        first_type,
        start,
        count,
    );
    assert(are_known_otherwise(style, folder, relative, source, picks, after.known)) by {
        assert forall|j: int| 0 <= j < source.projects.len() && !picks.contains(j) implies {
            let p = #[trigger] source.projects[j];
            if p.is_file {
                p.name == "ALL_BUILD"@ || is_among(
                    style,
                    after.known,
                    paths::joined_path(style, relative, p.path),
                )
            } else {
                sln_merge_kit::folder_path(style, source, p.guid) matches Some(inner)
                    && is_among(
                    style,
                    after.known,
                    paths::joined_path(style, folder, inner),
                )
            }
        } by {
            assert(sln_merge_kit::is_covered(
                style,
                added.known,
                source,
                folder,
                relative,
                source.projects[j],
            ));
        }
    }
    assert(after.target.projects.take(n) =~= state.target.projects) by {
        assert(added.projects.take(at).take(n) =~= added.projects.take(n));
        assert(start.projects.take(n) =~= state.target.projects);
    }
    if at == n + 1 {
        assert(added.projects.take(at)[n] == start.projects[n]);
    }
    lemma_merged_lines(state.target.sections, source, added.guids, f);
    lemma_other_sections(state.target.sections, source, added.guids, f);
    lemma_lines_about(
        sln_merge_kit::lines_of_section(source.sections, "ProjectConfigurationPlatforms"@),
        added.guids,
        own,
    );
    let old_lines = sln_merge_kit::lines_of_section(state.target.sections, "NestedProjects"@);
    let new_lines = sln_merge_kit::lines_of_section(after.target.sections, "NestedProjects"@);
    lemma_nested(sln_merge_kit::nesting_lines(source), added.guids, own, old_lines, f);
    let (taken, left) = sln_merge_kit::nest_lines(
        sln_merge_kit::nesting_lines(source),
        added.guids,
    );
    let under = sln_merge_kit::lines_under(left, sln_merge_kit::indent_of(old_lines), f);
    assert(new_lines.skip(old_lines.len() as int) =~= taken + under);
    assert(old_lines =~= new_lines.subrange(0, old_lines.len() as int));
    picks
}

/// `after` is what merging a source makes of `before`; a source that is missing changes nothing.
pub open spec fn is_next_stage(
    style: char,
    target_dir: Seq<char>,
    first_type: Seq<char>,
    source: SourceView,
    before: MergeState,
    after: MergeState,
) -> bool {
    if source.parsed == Err::<SlnView, SlnFault>(SlnFault::Missing) {
        after == before
    } else {
        &&& source.parsed is Ok
        &&& paths::relative_path(
            style,
            match paths::parent_path(style, source.path) {
                Some(dir) => dir,
                None => "."@,
            },
            target_dir,
        ) is Some
        &&& is_brought(
            style,
            paths::relative_path(
                style,
                match paths::parent_path(style, source.path) {
                    Some(dir) => dir,
                    None => "."@,
                },
                target_dir,
            )->0,
            first_type,
            match paths::path_file_stem(style, source.path) {
                Some(stem) => stem,
                None => "UnknownFolder"@,
            },
            source.parsed->Ok_0,
            before,
            after,
        )
    }
}

/// `after` is what merging a source that was read makes of `before`, for some of its projects.
pub open spec fn is_brought(
    style: char,
    relative: Seq<char>,
    first_type: Seq<char>,
    folder: Seq<char>,
    source: SlnView,
    before: MergeState,
    after: MergeState,
) -> bool {
    exists|picks: Seq<int>| #[trigger]
        is_merged_with(style, relative, first_type, folder, source, before, after, picks)
}

/// Merging the sources one after the other leads from stage to stage.
pub open spec fn are_stages(
    style: char,
    target_dir: Seq<char>,
    first_type: Seq<char>,
    sources: Seq<SourceView>,
    stages: Seq<MergeState>,
) -> bool {
    &&& stages.len() == sources.len() + 1
    &&& forall|i: int|
        0 <= i < sources.len() ==> is_next_stage(
            style,
            target_dir,
            first_type,
            #[trigger] sources[i],
            stages[i],
            stages[i + 1],
        )
}

proof fn lemma_stages(
    style: char,
    target_dir: Seq<char>,
    first_type: Seq<char>,
    sources: Seq<SourceView>,
    start: MergeState,
) -> (stages: Seq<MergeState>)
    requires
        sln_merge_kit::merge_all(
            style,
            target_dir,
            first_type,
            sources,
            start,
            sources.len() as int,
        ) is Ok,
    ensures
        are_stages(style, target_dir, first_type, sources, stages),
        stages[0] == start,
        stages.last() == sln_merge_kit::merge_all(
            style,
            target_dir,
            first_type,
            sources,
            start,
            sources.len() as int,
        )->Ok_0,
    decreases sources.len(),
{
    let n = sources.len() as int;
    if n == 0 {
        seq![start]
    } else {
        let front = sources.drop_last();
        lemma_merge_all_of_front(style, target_dir, first_type, sources, start, n - 1);
        let stages = lemma_stages(style, target_dir, first_type, front, start);
        let end = sln_merge_kit::merge_all(style, target_dir, first_type, sources, start, n)->Ok_0;
        let all = stages.push(end);
        let source = sources[n - 1];
        if let Ok(data) = source.parsed {
            let relative = paths::relative_path(
                style,
                sln_merge_kit::directory_of(style, source.path),
                target_dir,
            )->0;
            let picks = lemma_merged_with(
                style,
                first_type,
                source.path,
                relative,
                data,
                stages.last(),
            );
        }
        assert forall|i: int| 0 <= i < sources.len() implies is_next_stage(
            style,
            target_dir,
            first_type,
            #[trigger] sources[i],
            all[i],
            all[i + 1],
        ) by {
            if i < n - 1 {
                assert(front[i] == sources[i]);
                assert(all[i] == stages[i] && all[i + 1] == stages[i + 1]);
            } else {
                assert(all[i] == stages.last());
            }
        }
        all
    }
}

proof fn lemma_merge_all_of_front(
    style: char,
    target_dir: Seq<char>,
    first_type: Seq<char>,
    sources: Seq<SourceView>,
    start: MergeState,
    n: int,
)
    requires
        0 <= n < sources.len(),
    ensures
        sln_merge_kit::merge_all(style, target_dir, first_type, sources.drop_last(), start, n)
            == sln_merge_kit::merge_all(style, target_dir, first_type, sources, start, n),
    decreases n,
{
    if n > 0 {
        lemma_merge_all_of_front(style, target_dir, first_type, sources, start, n - 1);
        assert(sources.drop_last()[n - 1] == sources[n - 1]);
    }
}

/// The type of new folders: that of the first project at the path of the predefined targets, or
/// the fresh one.
pub open spec fn is_folder_type(
    projects: Seq<ProjectView>,
    fresh: Seq<char>,
    first_type: Seq<char>,
) -> bool {
    &&& forall|i: int|
        0 <= i < projects.len() && (#[trigger] projects[i]).path == "CMakePredefinedTargets"@ && (
        forall|j: int|
            0 <= j < i ==> (#[trigger] projects[j]).path != "CMakePredefinedTargets"@)
            ==> first_type == projects[i].first_guid
    &&& (forall|i: int|
        0 <= i < projects.len() ==> (#[trigger] projects[i]).path != "CMakePredefinedTargets"@)
        ==> first_type == fresh
}

proof fn lemma_folder_type(projects: Seq<ProjectView>, fresh: Seq<char>)
    ensures
        is_folder_type(
            projects,
            fresh,
            match sln_merge_kit::folder_type(projects) {
                Some(g) => g,
                None => fresh,
            },
        ),
        sln_merge_kit::folder_type(projects) is None ==> forall|i: int|
            0 <= i < projects.len() ==> (#[trigger] projects[i]).path
                != "CMakePredefinedTargets"@,
    decreases projects.len(),
{
    if projects.len() > 0 {
        let front = projects.drop_last();
        let n = front.len() as int;
        lemma_folder_type(front, fresh);
        assert(projects[n] == projects.last());
        assert(forall|k: int| 0 <= k < n ==> #[trigger] projects[k] == front[k]);
        assert(forall|k: int| 0 <= k < n ==> #[trigger] front[k] == projects[k]);
        let first_type = match sln_merge_kit::folder_type(projects) {
            Some(g) => g,
            None => fresh,
        };
        assert forall|i: int|
            0 <= i < projects.len() && (#[trigger] projects[i]).path == "CMakePredefinedTargets"@
                && (forall|j: int|
                0 <= j < i ==> (#[trigger] projects[j]).path
                    != "CMakePredefinedTargets"@) implies first_type == projects[i].first_guid by {
            if i < n {
                assert forall|j: int| 0 <= j < i implies (#[trigger] front[j]).path
                    != "CMakePredefinedTargets"@ by {
                    assert(projects[j].path != "CMakePredefinedTargets"@);
                }
                assert(front[i].path == "CMakePredefinedTargets"@);
                assert(sln_merge_kit::folder_type(front) is Some);
            } else {
                assert forall|j: int| 0 <= j < n implies (#[trigger] front[j]).path
                    != "CMakePredefinedTargets"@ by {
                    assert(projects[j].path != "CMakePredefinedTargets"@);
                }
                lemma_no_folder_type(front);
            }
        }
        if forall|i: int|
            0 <= i < projects.len() ==> (#[trigger] projects[i]).path
                != "CMakePredefinedTargets"@ {
            lemma_no_folder_type(projects);
        }
    }
}

proof fn lemma_no_folder_type(projects: Seq<ProjectView>)
    requires
        forall|i: int|
            0 <= i < projects.len() ==> (#[trigger] projects[i]).path
                != "CMakePredefinedTargets"@,
    ensures
        sln_merge_kit::folder_type(projects) is None,
    decreases projects.len(),
{
    if projects.len() > 0 {
        let front = projects.drop_last();
        assert forall|i: int| 0 <= i < front.len() implies (#[trigger] front[i]).path
            != "CMakePredefinedTargets"@ by {
            assert(front[i] == projects[i]);
        }
        assert(projects[projects.len() - 1].path != "CMakePredefinedTargets"@);
        lemma_no_folder_type(front);
    }
}

/// Each project of the target is known by its path, or by the folders around it and its name.
pub open spec fn are_paths_of(style: char, target: SlnView, known: Seq<Seq<char>>) -> bool {
    &&& known.len() == target.projects.len()
    &&& forall|i: int|
        0 <= i < target.projects.len() ==> if (#[trigger] target.projects[i]).is_file {
            known[i] == target.projects[i].path
        } else {
            sln_merge_kit::folder_path(style, target, target.projects[i].guid) == Some(known[i])
        }
}

proof fn lemma_paths_of(style: char, target: SlnView, n: int)
    requires
        0 <= n <= target.projects.len(),
        sln_merge_kit::known_paths(style, target, n) is Some,
    ensures
        ({
            let known = sln_merge_kit::known_paths(style, target, n)->0;
            &&& known.len() == n
            &&& forall|i: int|
                0 <= i < n ==> if (#[trigger] target.projects[i]).is_file {
                    known[i] == target.projects[i].path
                } else {
                    sln_merge_kit::folder_path(style, target, target.projects[i].guid) == Some(
                        known[i],
                    )
                }
        }),
    decreases n,
{
    if n > 0 {
        lemma_paths_of(style, target, n - 1);
        let before = sln_merge_kit::known_paths(style, target, n - 1)->0;
        let known = sln_merge_kit::known_paths(style, target, n)->0;
        assert forall|i: int| 0 <= i < n implies if (#[trigger] target.projects[i]).is_file {
            known[i] == target.projects[i].path
        } else {
            sln_merge_kit::folder_path(style, target, target.projects[i].guid) == Some(known[i])
        } by {
            if i < n - 1 {
                assert(known[i] == before[i]);
            }
        }
    }
}

/// How the target comes to be the merged solution: from stage to stage, with the paths of its own
/// projects known at first.
pub open spec fn is_merging(
    style: char,
    target_path: Seq<char>,
    target: SlnView,
    sources: Seq<SourceView>,
    fresh: Seq<char>,
    merged: SlnView,
) -> bool {
    leads_to(
        style,
        match paths::parent_path(style, target_path) {
            Some(dir) => dir,
            None => "."@,
        },
        target,
        sources,
        fresh,
        merged,
    )
}

/// Stages lead from the target to the merged solution.
pub open spec fn leads_to(
    style: char,
    target_dir: Seq<char>,
    target: SlnView,
    sources: Seq<SourceView>,
    fresh: Seq<char>,
    merged: SlnView,
) -> bool {
    exists|first_type: Seq<char>, stages: Seq<MergeState>|
        is_folder_type(target.projects, fresh, first_type) && #[trigger] are_stages(
            style,
            target_dir,
            first_type,
            sources,
            stages,
        ) && stages[0].target == target && are_paths_of(style, target, stages[0].known)
            && stages.last().target == merged
}

proof fn lemma_merging(
    style: char,
    target_path: Seq<char>,
    target: SlnView,
    sources: Seq<SourceView>,
    fresh: Seq<char>,
    data: SlnView,
)
    requires
        sln_merge_kit::merged(style, target_path, target, sources, fresh) == Ok::<
            SlnView,
            SlnFault,
        >(data),
    ensures
        is_merging(style, target_path, target, sources, fresh, data),
{
    let count = target.projects.len() as int;
    let known = sln_merge_kit::known_paths(style, target, count)->0;
    let first_type = match sln_merge_kit::folder_type(target.projects) {
        Some(g) => g,
        None => fresh,
    };
    lemma_folder_type(target.projects, fresh);
    lemma_paths_of(style, target, count);
    let stages = lemma_stages(
        style,
        sln_merge_kit::directory_of(style, target_path),
        first_type,
        sources,
        MergeState { target, known },
    );
}

/// The merged solution is what merging the sources one after the other leads to. Each source that
/// was read brings, behind what is there, its folder and those of its projects whose paths are not
/// known, under their paths from the target; with them come all the lines that configure them, as
/// often and in the order in which the source has them, and nothing else of its configuration;
/// and each is nested once, as in the source or else under the folder of the source.
pub proof fn law_sources_are_merged_whole(
    style: &PathStyle,
    target_path: &str,
    target: SlnData,
    sources: &Vec<SourceSolution>,
    fresh: &str,
    data: SlnData,
)
    requires
        call_ensures(
            sln_merge_kit::merge_data,
            (style, target_path, target, sources, fresh),
            Ok::<SlnData, SlnError>(data),
        ),
    ensures
        is_merging(
            style@,
            target_path@,
            target@,
            sln_merge_kit::source_views(sources@),
            fresh@,
            data@,
        ),
{
    lemma_merging(
        style@,
        target_path@,
        target@,
        sln_merge_kit::source_views(sources@),
        fresh@,
        data@,
    );
}

/// The file of the merged solution holds the text of it, and is written exactly where it does not
/// hold that text yet.
pub proof fn law_merged_solution_is_written(
    style: &PathStyle,
    target_path: &str,
    target: SlnData,
    present: &str,
    sources: &Vec<SourceSolution>,
    r: Option<String>,
)
    requires
        call_ensures(
            sln_merge_kit::merge_sln,
            (style, target_path, target, present, sources),
            Ok::<Option<String>, SlnError>(r),
        ),
    ensures
        exists|fresh: Seq<char>, data: SlnView| #[trigger]
            is_merging(
                style@,
                target_path@,
                target@,
                sln_merge_kit::source_views(sources@),
                fresh,
                data,
            ) && sln_merge_kit::is_uuid(fresh, false) && match r {
                Some(content) => content@ == sln::sln_text(data) && content@ != present@,
                None => present@ == sln::sln_text(data),
            },
{
    let views = sln_merge_kit::source_views(sources@);
    let fresh = choose|fresh: Seq<char>|
        sln_merge_kit::is_uuid(fresh, false) && sln_merge_kit::rewritten(
            #[trigger] sln_merge_kit::merged(style@, target_path@, target@, views, fresh),
            present@,
        ) == Ok::<Option<Seq<char>>, SlnFault>(text::opt_text(r));
    let result = sln_merge_kit::merged(style@, target_path@, target@, views, fresh);
    if let Ok(data) = result {
        lemma_merging(style@, target_path@, target@, views, fresh, data);
        assert(is_merging(style@, target_path@, target@, views, fresh, data));
    }
}

/// A section is found by its name, the first where several have it.
pub proof fn law_sections_are_found_by_name(sections: Seq<SectionView>, name: Seq<char>, i: int)
    requires
        0 <= i < sections.len(),
        sections[i].name == name,
        forall|j: int| 0 <= j < i ==> (#[trigger] sections[j]).name != name,
    ensures
        sln_merge_kit::lines_of_section(sections, name) == sections[i].lines,
    decreases sections.len(),
{
    let front = sections.drop_last();
    if i < front.len() {
        assert forall|j: int| 0 <= j < i implies (#[trigger] front[j]).name != name by {
            assert(front[j] == sections[j]);
        }
        law_sections_are_found_by_name(front, name, i);
        sln_merge_kit::lemma_section_named(front, name);
        lemma_section_is_some(front, name, i);
        let k = sln_merge_kit::section_named(front, name)->0;
        assert(front[k] == sections[k]);
        assert(front[i] == sections[i]);
    } else {
        assert forall|j: int| 0 <= j < front.len() implies (#[trigger] front[j]).name != name by {
            assert(front[j] == sections[j]);
        }
        sln_merge_kit::lemma_section_named(front, name);
        if let Some(k) = sln_merge_kit::section_named(front, name) {
            assert(front[k].name != name);
        }
    }
}

proof fn lemma_section_is_some(sections: Seq<SectionView>, name: Seq<char>, i: int)
    requires
        0 <= i < sections.len(),
        sections[i].name == name,
    ensures
        sln_merge_kit::section_named(sections, name) is Some,
    decreases sections.len(),
{
    if i < sections.len() - 1 {
        assert(sections.drop_last()[i] == sections[i]);
        lemma_section_is_some(sections.drop_last(), name, i);
    }
}

/// A line of the nesting section names a project and what it is nested in, on the sides of an
/// equals sign with white space around them; the last line about a project counts.
pub proof fn law_nesting_lines(
    lines: Seq<Seq<char>>,
    a: Seq<char>,
    child: Seq<char>,
    b: Seq<char>,
    c: Seq<char>,
    parent: Seq<char>,
    d: Seq<char>,
    other: Seq<char>,
)
    requires
        text_laws::is_blank(a) && text_laws::is_blank(b) && text_laws::is_blank(c)
            && text_laws::is_blank(d),
        text_laws::lacks(child, '=') && text_laws::lacks(parent, '='),
        child.len() > 0 ==> !text::is_space(child[0]) && !text::is_space(child.last()),
        parent.len() > 0 ==> !text::is_space(parent[0]) && !text::is_space(parent.last()),
    ensures
        ({
            let line = a + child + b + seq!['='] + (c + parent + d);
            &&& sln_merge_kit::parent_of(lines.push(line), child) == Some(parent)
            &&& other != child ==> sln_merge_kit::parent_of(lines.push(line), other)
                == sln_merge_kit::parent_of(lines, other)
            &&& sln_merge_kit::parent_of(Seq::empty(), other) is None
        }),
{
    let left = a + child + b;
    let right = c + parent + d;
    let line = left + seq!['='] + right;
    assert(!text::is_space('='));
    assert forall|i: int| 0 <= i < left.len() implies #[trigger] left[i] != '=' by {
        if i < a.len() {
            assert(left[i] == a[i]);
        } else if i < a.len() + child.len() {
            assert(left[i] == child[i - a.len()]);
        } else {
            assert(left[i] == b[i - a.len() - child.len()]);
        }
    }
    assert forall|i: int| 0 <= i < right.len() implies #[trigger] right[i] != '=' by {
        if i < c.len() {
            assert(right[i] == c[i]);
        } else if i < c.len() + parent.len() {
            assert(right[i] == parent[i - c.len()]);
        } else {
            assert(right[i] == d[i - c.len() - parent.len()]);
        }
    }
    let pieces = seq![left, right];
    text_laws::law_joining_is_undone_by_splitting(pieces, '=');
    text_laws::law_joining(seq![left], seq![right], seq!['='], left);
    text_laws::law_joining(seq![right], seq![right], seq!['='], right);
    assert(seq![left] + seq![right] =~= pieces);
    text_laws::law_trimming_finds_the_text(a, child, b);
    text_laws::law_trimming_finds_the_text(c, parent, d);
    assert(lines.push(line).drop_last() =~= lines);
}

/// A folder stands at its name below the path of the folder that it is nested in.
pub proof fn law_folders_stand_in_their_folders(
    style: char,
    solution: SlnView,
    g: Seq<char>,
    p: Seq<char>,
    around: Seq<char>,
)
    requires
        sln_merge_kit::parent_of(
            sln_merge_kit::lines_of_section(solution.sections, "NestedProjects"@),
            g,
        ) == Some(p),
        sln_merge_kit::folder_path(style, solution, p) == Some(around),
    ensures
        sln_merge_kit::folder_path(style, solution, g) == Some(
            match sln_merge_kit::folder_name(solution.projects, g) {
                Some(name) => paths::joined_path(style, around, name),
                None => around,
            },
        ),
{
    let lines = sln_merge_kit::nesting_lines(solution);
    let projects = solution.projects;
    let names = sln_merge_kit::folder_chain(projects, lines, p, lines.len())->0;
    let own = sln_merge_kit::own_name(projects, g);
    assert(sln_merge_kit::folder_chain(projects, lines, g, lines.len() + 1) == Some(names + own));
    sln_merge_again::lemma_full_chain(projects, lines, g, lines.len() + 1);
    if own.len() > 0 {
        assert((names + own).drop_last() =~= names);
    } else {
        assert(names + own =~= names);
    }
}

/// A folder that is nested in none stands at its name alone.
pub proof fn law_outermost_folders(style: char, solution: SlnView, g: Seq<char>, name: Seq<char>)
    requires
        sln_merge_kit::parent_of(
            sln_merge_kit::lines_of_section(solution.sections, "NestedProjects"@),
            g,
        ) is None,
        sln_merge_kit::folder_name(solution.projects, g) == Some(name),
    ensures
        sln_merge_kit::folder_path(style, solution, g) == Some(
            paths::joined_path(style, Seq::empty(), name),
        ),
{
    reveal_with_fuel(sln_merge_kit::path_of, 2);
    assert(seq![name].drop_last() =~= Seq::empty());
}

/// The projects that count for the hash of a solution are all its files for the compiler's build
/// tool that are inside its own directory, in their order.
pub proof fn law_own_projects_are_hashed(style: &PathStyle, solution: &SlnData, r: Vec<String>)
    requires
        call_ensures(sln_merge_kit::projects_to_hash, (style, solution), r),
    ensures
        text::texts(r@) == solution@.projects.filter(
            |p: ProjectView|
                p.is_file && paths::path_extension(style@, p.path) == Some("vcxproj"@)
                    && !paths::path_begins_with(style@, p.path, ".."@),
        ).map_values(|p: ProjectView| p.path),
{
    lemma_hashed(style@, solution@.projects);
}

proof fn lemma_hashed(style: char, projects: Seq<ProjectView>)
    ensures
        sln_merge_kit::hashed_paths(style, projects) == projects.filter(
            |p: ProjectView|
                p.is_file && paths::path_extension(style, p.path) == Some("vcxproj"@)
                    && !paths::path_begins_with(style, p.path, ".."@),
        ).map_values(|p: ProjectView| p.path),
    decreases projects.len(),
{
    let keep = |p: ProjectView|
        p.is_file && paths::path_extension(style, p.path) == Some("vcxproj"@)
            && !paths::path_begins_with(style, p.path, ".."@);
    let path = |p: ProjectView| p.path;
    reveal(Seq::filter);
    if projects.len() > 0 {
        let front = projects.drop_last();
        lemma_hashed(style, front);
        let rest = front.filter(keep);
        assert(rest.push(projects.last()).map_values(path) =~= rest.map_values(path).push(
            projects.last().path,
        ));
    } else {
        assert(projects.filter(keep).map_values(path) =~= Seq::empty());
    }
}

/// A section has the name.
pub open spec fn has_section(sections: Seq<SectionView>, name: Seq<char>) -> bool {
    exists|i: int| 0 <= i < sections.len() && (#[trigger] sections[i]).name == name
}

/// No folder of the solution contains itself.
pub open spec fn are_folders_placed(style: char, solution: SlnView) -> bool {
    forall|i: int|
        0 <= i < solution.projects.len() && !(#[trigger] solution.projects[i]).is_file
            ==> sln_merge_kit::folder_path(style, solution, solution.projects[i].guid) is Some
}

/// The source can be merged into a solution in this directory: it was read, its folders have their
/// places, and a path leads from the directory to it.
pub open spec fn can_be_merged(style: char, target_dir: Seq<char>, source: SourceView) -> bool {
    &&& source.parsed is Ok
    &&& are_folders_placed(style, source.parsed->Ok_0)
    &&& paths::relative_path(
        style,
        match paths::parent_path(style, source.path) {
            Some(dir) => dir,
            None => "."@,
        },
        target_dir,
    ) is Some
}

/// There is no file of the source.
pub open spec fn is_passed_over(source: SourceView) -> bool {
    source.parsed == Err::<SlnView, SlnFault>(SlnFault::Missing)
}

proof fn lemma_has_section(sections: Seq<SectionView>, name: Seq<char>)
    ensures
        has_section(sections, name) <==> sln_merge_kit::section_named(sections, name) is Some,
    decreases sections.len(),
{
    sln_merge_kit::lemma_section_named(sections, name);
    if let Some(i) = sln_merge_kit::section_named(sections, name) {
        assert(sections[i].name == name);
    } else if sections.len() > 0 {
        let front = sections.drop_last();
        lemma_has_section(front, name);
        assert(sections[sections.len() - 1] == sections.last());
        if has_section(sections, name) {
            let i = choose|i: int|
                0 <= i < sections.len() && (#[trigger] sections[i]).name == name;
            if i < front.len() {
                assert(front[i].name == name);
            }
        }
    }
}

proof fn lemma_can_merge_sections(
    sections: Seq<SectionView>,
    source: SlnView,
    guids: Seq<Seq<char>>,
    folder: Seq<char>,
)
    ensures
        sln_merge_kit::merge_sections(sections, source, guids, folder) is Ok <==> has_section(
            sections,
            "ProjectConfigurationPlatforms"@,
        ) && has_section(sections, "NestedProjects"@),
        sln_merge_kit::merge_sections(sections, source, guids, folder) matches Ok(after)
            ==> forall|name: Seq<char>| #[trigger]
            has_section(after, name) <==> has_section(sections, name),
{
    lemma_has_section(sections, "ProjectConfigurationPlatforms"@);
    sln_merge_kit::lemma_section_named(sections, "ProjectConfigurationPlatforms"@);
    if let Some(c) = sln_merge_kit::section_named(sections, "ProjectConfigurationPlatforms"@) {
        let configured = sln_merge_kit::with_lines(
            sections,
            c,
            sections[c].lines + sln_merge_kit::lines_about(
                sln_merge_kit::lines_of_section(
                    source.sections,
                    "ProjectConfigurationPlatforms"@,
                ),
                guids,
            ),
        );
        lemma_same_names(sections, configured);
        lemma_has_section(configured, "NestedProjects"@);
        sln_merge_kit::lemma_section_named(configured, "NestedProjects"@);
        if let Ok(after) = sln_merge_kit::merge_sections(sections, source, guids, folder) {
            lemma_same_names(configured, after);
        }
    }
}

proof fn lemma_same_names(a: Seq<SectionView>, b: Seq<SectionView>)
    requires
        a.len() == b.len(),
        forall|i: int| 0 <= i < a.len() ==> (#[trigger] a[i]).name == b[i].name,
    ensures
        forall|name: Seq<char>| #[trigger] has_section(b, name) <==> has_section(a, name),
{
    assert forall|name: Seq<char>| #[trigger]
        has_section(b, name) <==> has_section(a, name) by {
        if has_section(a, name) {
            let i = choose|i: int| 0 <= i < a.len() && (#[trigger] a[i]).name == name;
            assert(b[i].name == name);
        }
        if has_section(b, name) {
            let i = choose|i: int| 0 <= i < b.len() && (#[trigger] b[i]).name == name;
            assert(a[i].name == name);
        }
    }
}

proof fn lemma_can_add_projects(
    style: char,
    source: SlnView,
    folder: Seq<char>,
    relative: Seq<char>,
    first_guid: Seq<char>,
    start: Added,
    n: int,
)
    requires
        0 <= n <= source.projects.len(),
    ensures
        sln_merge_kit::add_projects(style, source, folder, relative, first_guid, start, n) is Some
            <==> forall|i: int|
            0 <= i < n && !(#[trigger] source.projects[i]).is_file
                ==> sln_merge_kit::folder_path(style, source, source.projects[i].guid) is Some,
    decreases n,
{
    if n > 0 {
        lemma_can_add_projects(style, source, folder, relative, first_guid, start, n - 1);
        let p = source.projects[n - 1];
        assert(p == source.projects[n - 1]);
    }
}

proof fn lemma_can_know_paths(style: char, target: SlnView, n: int)
    requires
        0 <= n <= target.projects.len(),
    ensures
        sln_merge_kit::known_paths(style, target, n) is Some <==> forall|i: int|
            0 <= i < n && !(#[trigger] target.projects[i]).is_file ==> sln_merge_kit::folder_path(
                style,
                target,
                target.projects[i].guid,
            ) is Some,
    decreases n,
{
    if n > 0 {
        lemma_can_know_paths(style, target, n - 1);
        let p = target.projects[n - 1];
        assert(p == target.projects[n - 1]);
    }
}

proof fn lemma_can_merge_all(
    style: char,
    target_dir: Seq<char>,
    first_guid: Seq<char>,
    sources: Seq<SourceView>,
    start: MergeState,
    n: int,
)
    requires
        0 <= n <= sources.len(),
    ensures
        sln_merge_kit::merge_all(style, target_dir, first_guid, sources, start, n) is Ok
            <==> forall|i: int|
            0 <= i < n ==> is_passed_over(#[trigger] sources[i]) || (can_be_merged(
                style,
                target_dir,
                sources[i],
            ) && has_section(start.target.sections, "ProjectConfigurationPlatforms"@)
                && has_section(start.target.sections, "NestedProjects"@)),
        sln_merge_kit::merge_all(style, target_dir, first_guid, sources, start, n) matches Ok(end)
            ==> forall|name: Seq<char>| #[trigger]
            has_section(end.target.sections, name) <==> has_section(start.target.sections, name),
    decreases n,
{
    if n > 0 {
        lemma_can_merge_all(style, target_dir, first_guid, sources, start, n - 1);
        let source = sources[n - 1];
        assert(source == sources[n - 1]);
        if let Ok(state) = sln_merge_kit::merge_all(
            style,
            target_dir,
            first_guid,
            sources,
            start,
            n - 1,
        ) {
            let dir = sln_merge_kit::directory_of(style, source.path);
            let way = paths::relative_path(style, dir, target_dir);
            if !is_passed_over(source) && way is Some && source.parsed is Ok {
                let data = source.parsed->Ok_0;
                let folder = sln_merge_kit::source_folder(style, source.path);
                let first = Added {
                    projects: if sln_merge_kit::is_known(style, state.known, folder) {
                        state.target.projects
                    } else {
                        state.target.projects.push(
                            sln_merge_kit::folder_project(folder, first_guid),
                        )
                    },
                    known: state.known,
                    guids: Seq::empty(),
                };
                lemma_can_add_projects(
                    style,
                    data,
                    folder,
                    way->0,
                    first_guid,
                    first,
                    data.projects.len() as int,
                );
                if let Some(added) = sln_merge_kit::add_projects(
                    style,
                    data,
                    folder,
                    way->0,
                    first_guid,
                    first,
                    data.projects.len() as int,
                ) {
                    lemma_can_merge_sections(
                        state.target.sections,
                        data,
                        added.guids,
                        sln_merge_kit::folder_guid(folder),
                    );
                }
            }
        }
    }
}

proof fn lemma_can_be_merged(
    style: char,
    target_path: Seq<char>,
    target: SlnView,
    views: Seq<SourceView>,
    fresh: Seq<char>,
)
    ensures
        ({
            let dir = match paths::parent_path(style, target_path) {
                Some(dir) => dir,
                None => "."@,
            };
            sln_merge_kit::merged(style, target_path, target, views, fresh) is Ok
                <==> are_folders_placed(style, target) && forall|i: int|
                0 <= i < views.len() ==> is_passed_over(#[trigger] views[i]) || (can_be_merged(
                    style,
                    dir,
                    views[i],
                ) && has_section(target.sections, "ProjectConfigurationPlatforms"@)
                    && has_section(target.sections, "NestedProjects"@))
        }),
{
    let dir = sln_merge_kit::directory_of(style, target_path);
    let count = target.projects.len() as int;
    lemma_can_know_paths(style, target, count);
    if let Some(known) = sln_merge_kit::known_paths(style, target, count) {
        lemma_can_merge_all(
            style,
            dir,
            match sln_merge_kit::folder_type(target.projects) {
                Some(g) => g,
                None => fresh,
            },
            views,
            MergeState { target, known },
            views.len() as int,
        );
    }
}

/// Solutions are merged exactly where no folder of the target contains itself and each source is
/// missing or can be merged, for which the target needs a section for the configurations and one
/// for the nesting of projects.
pub proof fn law_solutions_can_be_merged(
    style: &PathStyle,
    target_path: &str,
    target: SlnData,
    sources: &Vec<SourceSolution>,
    fresh: &str,
    r: Result<SlnData, SlnError>,
)
    requires
        call_ensures(sln_merge_kit::merge_data, (style, target_path, target, sources, fresh), r),
    ensures
        ({
            let views = sln_merge_kit::source_views(sources@);
            let dir = match paths::parent_path(style@, target_path@) {
                Some(dir) => dir,
                None => "."@,
            };
            r is Ok <==> are_folders_placed(style@, target@) && forall|i: int|
                0 <= i < views.len() ==> is_passed_over(#[trigger] views[i]) || (can_be_merged(
                    style@,
                    dir,
                    views[i],
                ) && has_section(target@.sections, "ProjectConfigurationPlatforms"@)
                    && has_section(target@.sections, "NestedProjects"@))
        }),
{
    lemma_can_be_merged(
        style@,
        target_path@,
        target@,
        sln_merge_kit::source_views(sources@),
        fresh@,
    );
}

/// A file is merged exactly where its solutions can be.
pub proof fn law_files_can_be_merged(
    style: &PathStyle,
    target_path: &str,
    target: SlnData,
    present: &str,
    sources: &Vec<SourceSolution>,
    r: Result<Option<String>, SlnError>,
)
    requires
        call_ensures(
            sln_merge_kit::merge_sln,
            (style, target_path, target, present, sources),
            r,
        ),
    ensures
        ({
            let views = sln_merge_kit::source_views(sources@);
            let dir = match paths::parent_path(style@, target_path@) {
                Some(dir) => dir,
                None => "."@,
            };
            r is Ok <==> are_folders_placed(style@, target@) && forall|i: int|
                0 <= i < views.len() ==> is_passed_over(#[trigger] views[i]) || (can_be_merged(
                    style@,
                    dir,
                    views[i],
                ) && has_section(target@.sections, "ProjectConfigurationPlatforms"@)
                    && has_section(target@.sections, "NestedProjects"@))
        }),
{
    let views = sln_merge_kit::source_views(sources@);
    let fresh = choose|fresh: Seq<char>|
        sln_merge_kit::is_uuid(fresh, false) && sln_merge_kit::rewritten(
            #[trigger] sln_merge_kit::merged(style@, target_path@, target@, views, fresh),
            present@,
        ) == (match r {
            Ok(content) => Ok(text::opt_text(content)),
            Err(e) => Err(e@),
        });
    lemma_can_be_merged(style@, target_path@, target@, views, fresh);
}

} // verus!
