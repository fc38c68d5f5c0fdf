//! Merging the same solutions into a solution a second time.

use crate::paths;
use crate::sln::{self, ProjectView, SectionView, SlnFault, SlnView};
use crate::sln_merge_kit::{self, Added, MergeState, SourceView};
use crate::sln_round_trip;
use crate::text;
use vstd::prelude::*;

verus! {

/// The line nests the project whose identifier is the first in it.
pub open spec fn is_nest_line(line: Seq<char>) -> bool {
    sln_merge_kit::nested_pair(line) matches Some((child, _)) && sln::first_guid_in(line) == Some(
        child,
    )
}

/// The identifier that a nesting line nests.
pub open spec fn child_in(line: Seq<char>) -> Seq<char> {
    match sln_merge_kit::nested_pair(line) {
        Some((child, _)) => child,
        None => Seq::empty(),
    }
}

/// Each line nests a project, and no project is nested twice.
pub open spec fn is_nesting(lines: Seq<Seq<char>>) -> bool {
    &&& forall|i: int| 0 <= i < lines.len() ==> is_nest_line(#[trigger] lines[i])
    &&& forall|i: int, j: int|
        0 <= i < j < lines.len() ==> child_in(#[trigger] lines[i]) != child_in(#[trigger] lines[j])
}

proof fn lemma_parent_of_both(a: Seq<Seq<char>>, b: Seq<Seq<char>>, g: Seq<char>)
    ensures
        sln_merge_kit::parent_of(a + b, g) == (match sln_merge_kit::parent_of(b, g) {
            Some(p) => Some(p),
            None => sln_merge_kit::parent_of(a, g),
        }),
    decreases b.len(),
{
    if b.len() == 0 {
        assert(a + b =~= a);
    } else {
        assert((a + b).drop_last() =~= a + b.drop_last());
        lemma_parent_of_both(a, b.drop_last(), g);
    }
}

proof fn lemma_not_a_child(lines: Seq<Seq<char>>, g: Seq<char>)
    requires
        forall|i: int| 0 <= i < lines.len() ==> is_nest_line(#[trigger] lines[i]),
        forall|i: int| 0 <= i < lines.len() ==> child_in(#[trigger] lines[i]) != g,
    ensures
        sln_merge_kit::parent_of(lines, g) is None,
    decreases lines.len(),
{
    if lines.len() > 0 {
        let rest = lines.drop_last();
        assert forall|i: int| 0 <= i < rest.len() implies is_nest_line(#[trigger] rest[i])
            && child_in(rest[i]) != g by {
            assert(rest[i] == lines[i]);
        }
        lemma_not_a_child(rest, g);
        assert(child_in(lines[lines.len() - 1]) != g);
    }
}

pub proof fn lemma_without_text(list: Seq<Seq<char>>, s: Seq<char>)
    ensures
        forall|g: Seq<char>| #[trigger]
            sln_merge_kit::without_text(list, s).contains(g) <==> list.contains(g) && g != s,
    decreases list.len(),
{
    if list.len() > 0 {
        let front = list.drop_last();
        let rest = sln_merge_kit::without_text(front, s);
        let all = sln_merge_kit::without_text(list, s);
        lemma_without_text(front, s);
        assert forall|g: Seq<char>| #[trigger] all.contains(g) <==> list.contains(g) && g != s by {
            if list.contains(g) && g != list.last() {
                assert(front[list.index_of(g)] == g);
            }
            if front.contains(g) {
                assert(list[front.index_of(g)] == g);
            }
            assert(list[list.len() - 1] == list.last());
            if list.last() != s {
                assert(all[rest.len() as int] == list.last());
                if rest.contains(g) {
                    assert(all[rest.index_of(g)] == g);
                }
                if all.contains(g) && g != list.last() {
                    assert(rest[all.index_of(g)] == g);
                }
            }
        }
    }
}

proof fn lemma_nest_lines(lines: Seq<Seq<char>>, guids: Seq<Seq<char>>)
    requires
        is_nesting(lines),
    ensures
        ({
            let (taken, left) = sln_merge_kit::nest_lines(lines, guids);
            &&& forall|g: Seq<char>| #[trigger]
                sln_merge_kit::parent_of(taken, g) == (if guids.contains(g) {
                    sln_merge_kit::parent_of(lines, g)
                } else {
                    None
                })
            &&& forall|g: Seq<char>| #[trigger]
                left.contains(g) <==> guids.contains(g) && sln_merge_kit::parent_of(lines, g)
                    is None
        }),
    decreases lines.len(),
{
    if lines.len() > 0 {
        let rest = lines.drop_last();
        let line = lines.last();
        let c = child_in(line);
        assert forall|i: int| 0 <= i < rest.len() implies is_nest_line(#[trigger] rest[i])
            && child_in(rest[i]) != c by {
            assert(rest[i] == lines[i]);
            assert(line == lines[lines.len() - 1]);
        }
        assert forall|i: int, j: int| 0 <= i < j < rest.len() implies child_in(#[trigger] rest[i])
            != child_in(#[trigger] rest[j]) by {
            assert(rest[i] == lines[i] && rest[j] == lines[j]);
        }
        assert(is_nest_line(lines[lines.len() - 1]));
        lemma_nest_lines(rest, guids);
        lemma_not_a_child(rest, c);
        let (taken, left) = sln_merge_kit::nest_lines(rest, guids);
        lemma_without_text(left, c);
        let (all, remaining) = sln_merge_kit::nest_lines(lines, guids);
        assert forall|g: Seq<char>| #[trigger]
            sln_merge_kit::parent_of(all, g) == (if guids.contains(g) {
                sln_merge_kit::parent_of(lines, g)
            } else {
                None
            }) by {
            assert(sln_merge_kit::parent_of(taken, g) == (if guids.contains(g) {
                sln_merge_kit::parent_of(rest, g)
            } else {
                None
            }));
            if left.contains(c) {
                assert(all == taken.push(line));
                assert(all.drop_last() =~= taken);
            }
        }
    }
}

/// An identifier in braces that an equals sign does not part.
pub open spec fn is_id(g: Seq<char>) -> bool {
    sln_round_trip::is_braced(g) && sln_round_trip::lacks(g, '=')
}

pub proof fn lemma_trim_start_of_spaced(space: Seq<char>, s: Seq<char>)
    requires
        forall|i: int| 0 <= i < space.len() ==> text::is_space(#[trigger] space[i]),
        s.len() > 0,
        !text::is_space(s[0]),
    ensures
        text::trim_start_of(space + s) == s,
    decreases space.len(),
{
    let all = space + s;
    if space.len() == 0 {
        assert(all =~= s);
    } else {
        assert(text::is_space(space[0]) && all[0] == space[0]);
        assert(all.skip(1) =~= space.skip(1) + s);
        assert forall|i: int| 0 <= i < space.skip(1).len() implies text::is_space(
            #[trigger] space.skip(1)[i],
        ) by {
            assert(space.skip(1)[i] == space[i + 1]);
        }
        lemma_trim_start_of_spaced(space.skip(1), s);
    }
}

proof fn lemma_pair_of_line(indent: Seq<char>, g: Seq<char>, f: Seq<char>)
    requires
        is_id(g),
        is_id(f),
        forall|i: int| 0 <= i < indent.len() ==> text::is_space(#[trigger] indent[i]),
    ensures
        sln_merge_kit::nested_pair(indent + g + " = "@ + f) == Some((g, f)),
{
    reveal_strlit(" = ");
    let line = indent + g + " = "@ + f;
    let left = indent + (g + seq![' ']);
    let right = seq![' '] + f;
    assert(line =~= left + seq!['='] + right);
    assert(sln_round_trip::lacks(left, '=')) by {
        assert forall|i: int| 0 <= i < left.len() implies #[trigger] left[i] != '=' by {
            if i < indent.len() {
                assert(left[i] == indent[i]);
                assert(!text::is_space('='));
            } else if i < indent.len() + g.len() {
                assert(left[i] == g[i - indent.len()]);
            }
        }
    }
    assert(sln_round_trip::lacks(right, '=')) by {
        assert forall|i: int| 0 <= i < right.len() implies #[trigger] right[i] != '=' by {
            if i > 0 {
                assert(right[i] == f[i - 1]);
            }
        }
    }
    sln_round_trip::lemma_split_first(line, '=', left, right);
    text::lemma_first_index(right, '=');
    assert(text::split_of(right, '=') =~= seq![right]);
    assert(text::split_of(line, '=').len() == 2);
    assert(text::split_of(line, '=')[1] == text::split_of(right, '=')[0]);
    let spaced = g + seq![' '];
    assert(spaced[0] == g[0]);
    assert(!text::is_space('{') && !text::is_space('}') && text::is_space(' '));
    lemma_trim_start_of_spaced(indent, spaced);
    assert(spaced.last() == ' ' && spaced.drop_last() =~= g);
    assert(text::trim_end_of(g) == g);
    assert(text::trim_end_of(spaced) == g);
    assert(right.skip(1) =~= f);
    assert(right[0] == ' ');
    assert(text::trim_start_of(f) == f);
    assert(text::trim_start_of(right) == f);
    assert(text::trim_end_of(f) == f);
}

proof fn lemma_lines_under(left: Seq<Seq<char>>, indent: Seq<char>, f: Seq<char>)
    requires
        forall|i: int| 0 <= i < left.len() ==> is_id(#[trigger] left[i]),
        is_id(f),
        forall|i: int| 0 <= i < indent.len() ==> text::is_space(#[trigger] indent[i]),
    ensures
        forall|g: Seq<char>| #[trigger]
            sln_merge_kit::parent_of(sln_merge_kit::lines_under(left, indent, f), g) == (
            if left.contains(g) {
                Some(f)
            } else {
                None
            }),
    decreases left.len(),
{
    let lines = sln_merge_kit::lines_under(left, indent, f);
    if left.len() == 0 {
        assert(forall|g: Seq<char>| !left.contains(g));
    } else {
        let front = left.drop_last();
        assert(lines.drop_last() =~= sln_merge_kit::lines_under(front, indent, f));
        assert forall|i: int| 0 <= i < front.len() implies is_id(#[trigger] front[i]) by {
            assert(front[i] == left[i]);
        }
        lemma_lines_under(front, indent, f);
        assert(is_id(left[left.len() - 1]));
        lemma_pair_of_line(indent, left.last(), f);
        assert forall|g: Seq<char>| #[trigger]
            sln_merge_kit::parent_of(lines, g) == (if left.contains(g) {
                Some(f)
            } else {
                None
            }) by {
            assert(left[left.len() - 1] == left.last());
            if left.contains(g) && g != left.last() {
                assert(front[left.index_of(g)] == g);
            }
            if front.contains(g) {
                assert(left[front.index_of(g)] == g);
            }
            assert(sln_merge_kit::parent_of(lines.drop_last(), g) == (if front.contains(g) {
                Some(f)
            } else {
                None
            }));
        }
    }
}

proof fn lemma_leading_space(s: Seq<char>)
    ensures
        forall|i: int|
            0 <= i < text::leading_space(s).len() ==> text::is_space(
                #[trigger] text::leading_space(s)[i],
            ),
    decreases s.len(),
{
    if s.len() > 0 && text::is_space(s[0]) {
        lemma_leading_space(s.skip(1));
        let rest = text::leading_space(s.skip(1));
        assert forall|i: int| 0 <= i < text::leading_space(s).len() implies text::is_space(
            #[trigger] text::leading_space(s)[i],
        ) by {
            if i > 0 {
                assert(text::leading_space(s)[i] == rest[i - 1]);
            }
        }
    }
}

pub proof fn lemma_indent(lines: Seq<Seq<char>>)
    ensures
        forall|i: int|
            0 <= i < sln_merge_kit::indent_of(lines).len() ==> text::is_space(
                #[trigger] sln_merge_kit::indent_of(lines)[i],
            ),
{
    reveal_strlit("        ");
    if lines.len() > 0 {
        lemma_leading_space(lines[0]);
    }
}

/// The solution speaks of the identifier: as that of a project, as nested, or as a parent.
pub open spec fn names_id(solution: SlnView, g: Seq<char>) -> bool {
    ||| exists|j: int|
        0 <= j < solution.projects.len() && (#[trigger] solution.projects[j]).guid == g
    ||| sln_merge_kit::parent_of(sln_merge_kit::nesting_lines(solution), g) is Some
    ||| exists|c: Seq<char>| #[trigger]
        sln_merge_kit::parent_of(sln_merge_kit::nesting_lines(solution), c) == Some(g)
}

/// What `a` says of the identifiers that it speaks of, `b` says too: their parents and the names
/// of the folders.
spec fn keeps(a: SlnView, b: SlnView) -> bool {
    forall|g: Seq<char>| #[trigger]
        names_id(a, g) ==> {
            &&& sln_merge_kit::parent_of(sln_merge_kit::nesting_lines(b), g)
                == sln_merge_kit::parent_of(sln_merge_kit::nesting_lines(a), g)
            &&& sln_merge_kit::folder_name(b.projects, g) == sln_merge_kit::folder_name(
                a.projects,
                g,
            )
        }
}

proof fn lemma_kept_chain(a: SlnView, b: SlnView, g: Seq<char>, depth: nat)
    requires
        keeps(a, b),
        names_id(a, g),
    ensures
        sln_merge_kit::folder_chain(b.projects, sln_merge_kit::nesting_lines(b), g, depth)
            == sln_merge_kit::folder_chain(a.projects, sln_merge_kit::nesting_lines(a), g, depth),
    decreases depth,
{
    if let Some(p) = sln_merge_kit::parent_of(sln_merge_kit::nesting_lines(a), g) {
        assert(names_id(a, p));
        if depth > 0 {
            lemma_kept_chain(a, b, p, (depth - 1) as nat);
        }
    }
}

pub proof fn lemma_deeper_chain(
    projects: Seq<ProjectView>,
    lines: Seq<Seq<char>>,
    g: Seq<char>,
    depth: nat,
    more: nat,
)
    requires
        depth <= more,
        sln_merge_kit::folder_chain(projects, lines, g, depth) is Some,
    ensures
        sln_merge_kit::folder_chain(projects, lines, g, more) == sln_merge_kit::folder_chain(
            projects,
            lines,
            g,
            depth,
        ),
    decreases depth,
{
    if let Some(p) = sln_merge_kit::parent_of(lines, g) {
        lemma_deeper_chain(projects, lines, p, (depth - 1) as nat, (more - 1) as nat);
    }
}

pub proof fn lemma_full_chain(projects: Seq<ProjectView>, lines: Seq<Seq<char>>, g: Seq<char>, depth: nat)
    requires
        sln_merge_kit::folder_chain(projects, lines, g, depth) is Some,
    ensures
        sln_merge_kit::folder_chain(projects, lines, g, lines.len()) == sln_merge_kit::folder_chain(
            projects,
            lines,
            g,
            depth,
        ),
{
    if sln_merge_kit::folder_chain(projects, lines, g, lines.len()) is None {
        sln_merge_kit::law_deep_folders_are_cyclic(projects, lines, g, depth);
    } else if depth <= lines.len() {
        lemma_deeper_chain(projects, lines, g, depth, lines.len());
    } else {
        lemma_deeper_chain(projects, lines, g, lines.len(), depth);
    }
}

proof fn lemma_kept_path(style: char, a: SlnView, b: SlnView, g: Seq<char>)
    requires
        keeps(a, b),
        names_id(a, g),
        sln_merge_kit::folder_path(style, a, g) is Some,
    ensures
        sln_merge_kit::folder_path(style, b, g) == sln_merge_kit::folder_path(style, a, g),
{
    let lines = sln_merge_kit::nesting_lines(a);
    lemma_kept_chain(a, b, g, lines.len());
    lemma_full_chain(b.projects, sln_merge_kit::nesting_lines(b), g, lines.len());
}

/// The path under which a project of a source is merged.
pub open spec fn merged_path(
    style: char,
    source: SlnView,
    folder: Seq<char>,
    relative: Seq<char>,
    p: ProjectView,
) -> Seq<char> {
    if p.is_file {
        paths::joined_path(style, relative, p.path)
    } else {
        match sln_merge_kit::folder_path(style, source, p.guid) {
            Some(inner) => paths::joined_path(style, folder, inner),
            None => folder,
        }
    }
}

/// The paths under which the first `n` projects of a source are merged.
pub open spec fn merged_paths(
    style: char,
    source: SlnView,
    folder: Seq<char>,
    relative: Seq<char>,
    n: int,
) -> Seq<Seq<char>> {
    Seq::new(n as nat, |j: int| merged_path(style, source, folder, relative, source.projects[j]))
}

/// No two projects of the solution have one identifier.
pub open spec fn has_distinct_ids(solution: SlnView) -> bool {
    forall|i: int, j: int|
        0 <= i < j < solution.projects.len() ==> (#[trigger] solution.projects[i]).guid != (
        #[trigger] solution.projects[j]).guid
}

/// A project of the solution among the first `n` has the identifier.
spec fn is_project_id(solution: SlnView, n: int, g: Seq<char>) -> bool {
    exists|j: int| 0 <= j < n && (#[trigger] solution.projects[j]).guid == g
}

/// The path of every folder of the source among the first `n` projects is not known when it is
/// reached.
pub open spec fn has_new_folders(
    style: char,
    source: SlnView,
    folder: Seq<char>,
    relative: Seq<char>,
    known: Seq<Seq<char>>,
    n: int,
) -> bool {
    forall|j: int|
        0 <= j < n && !(#[trigger] source.projects[j]).is_file ==> !sln_merge_kit::is_known(
            style,
            known + merged_paths(style, source, folder, relative, j),
            merged_path(style, source, folder, relative, source.projects[j]),
        )
}

/// How a path of `after` came about: it was known, is that of a file, or that of a folder of the
/// source.
spec fn is_accounted(
    style: char,
    source: SlnView,
    folder: Seq<char>,
    relative: Seq<char>,
    start: Added,
    after: Added,
    n: int,
    path: Seq<char>,
) -> bool {
    ||| start.known.contains(path)
    ||| exists|q: int|
        0 <= q < after.projects.len() && (#[trigger] after.projects[q]).is_file
            && after.projects[q].path == path
    ||| exists|j: int|
        0 <= j < n && !(#[trigger] source.projects[j]).is_file && merged_path(
            style,
            source,
            folder,
            relative,
            source.projects[j],
        ) == path
}

/// What adding the first `n` projects of a source comes to.
spec fn is_added(
    style: char,
    source: SlnView,
    folder: Seq<char>,
    relative: Seq<char>,
    known: Seq<Seq<char>>,
    start: Added,
    after: Added,
    n: int,
) -> bool {
    let all = known + merged_paths(style, source, folder, relative, n);
    &&& start.projects.len() <= after.projects.len()
    &&& forall|q: int| 0 <= q < start.projects.len() ==> #[trigger] after.projects[q] == start.projects[q]
    &&& forall|k: int| 0 <= k < after.known.len() ==> all.contains(#[trigger] after.known[k])
    &&& forall|k: int|
        0 <= k < after.known.len() ==> is_accounted(
            style,
            source,
            folder,
            relative,
            start,
            after,
            n,
            #[trigger] after.known[k],
        )
    &&& forall|g: Seq<char>|
        !is_project_id(source, n, g) ==> #[trigger] sln_merge_kit::folder_name(after.projects, g)
            == sln_merge_kit::folder_name(start.projects, g)
    &&& forall|j: int|
        0 <= j < n && !(#[trigger] source.projects[j]).is_file ==> {
            &&& sln_merge_kit::folder_name(after.projects, source.projects[j].guid) == Some(
                source.projects[j].name,
            )
            &&& after.guids.contains(source.projects[j].guid)
            &&& folder_path_is_some(style, source, source.projects[j].guid)
        }
    &&& forall|g: Seq<char>| #[trigger]
        after.guids.contains(g) ==> start.guids.contains(g) || is_project_id(source, n, g)
    &&& forall|q: int|
        start.projects.len() <= q < after.projects.len() ==> is_taken_from(
            source,
            n,
            #[trigger] after.projects[q],
        )
    &&& forall|j: int|
        0 <= j < n && !(#[trigger] source.projects[j]).is_file ==> is_folder_id(
            after.projects,
            source.projects[j].guid,
        )
}

spec fn folder_path_is_some(style: char, source: SlnView, g: Seq<char>) -> bool {
    sln_merge_kit::folder_path(style, source, g) is Some
}

spec fn is_taken_from(source: SlnView, n: int, p: ProjectView) -> bool {
    exists|j: int|
        0 <= j < n && (#[trigger] source.projects[j]).guid == p.guid && source.projects[j].is_file
            == p.is_file
}

spec fn is_folder_id(projects: Seq<ProjectView>, g: Seq<char>) -> bool {
    exists|q: int|
        0 <= q < projects.len() && !(#[trigger] projects[q]).is_file && projects[q].guid == g
}

proof fn lemma_is_added(
    style: char,
    source: SlnView,
    folder: Seq<char>,
    relative: Seq<char>,
    first_guid: Seq<char>,
    known: Seq<Seq<char>>,
    start: Added,
    n: int,
)
    requires
        0 <= n <= source.projects.len(),
        sln_merge_kit::add_projects(style, source, folder, relative, first_guid, start, n) is Some,
        forall|k: int| 0 <= k < start.known.len() ==> known.contains(#[trigger] start.known[k]),
        has_distinct_ids(source),
        has_new_folders(style, source, folder, relative, known, n),
    ensures
        is_added(
            style,
            source,
            folder,
            relative,
            known,
            start,
            sln_merge_kit::add_projects(style, source, folder, relative, first_guid, start, n)->0,
            n,
        ),
    decreases n,
{
    let after = sln_merge_kit::add_projects(
        style,
        source,
        folder,
        relative,
        first_guid,
        start,
        n,
    )->0;
    let all = known + merged_paths(style, source, folder, relative, n);
    if n == 0 {
        assert(all =~= known);
        assert forall|k: int| 0 <= k < after.known.len() implies is_accounted(
            style,
            source,
            folder,
            relative,
            start,
            after,
            n,
            #[trigger] after.known[k],
        ) by {
            assert(start.known.contains(start.known[k]));
        }
    } else {
        let before = sln_merge_kit::add_projects(
            style,
            source,
            folder,
            relative,
            first_guid,
            start,
            n - 1,
        )->0;
        lemma_is_added(style, source, folder, relative, first_guid, known, start, n - 1);
        let p = source.projects[n - 1];
        let path = merged_path(style, source, folder, relative, p);
        let fewer = known + merged_paths(style, source, folder, relative, n - 1);
        assert(all =~= fewer.push(path));
        if !p.is_file {
            if sln_merge_kit::is_known(style, before.known, path) {
                sln_merge_kit::lemma_known_in_more(style, before.known, fewer, path);
            }
        }
        lemma_is_added_step(
            style,
            source,
            folder,
            relative,
            first_guid,
            known,
            start,
            before,
            after,
            n,
        );
    }
}

proof fn lemma_is_added_step(
    style: char,
    source: SlnView,
    folder: Seq<char>,
    relative: Seq<char>,
    first_guid: Seq<char>,
    known: Seq<Seq<char>>,
    start: Added,
    before: Added,
    after: Added,
    n: int,
)
    requires
        0 < n <= source.projects.len(),
        is_added(style, source, folder, relative, known, start, before, n - 1),
        sln_merge_kit::add_project(
            style,
            source,
            folder,
            relative,
            first_guid,
            before,
            source.projects[n - 1],
        ) == Some(after),
        has_distinct_ids(source),
        !source.projects[n - 1].is_file ==> !sln_merge_kit::is_known(
            style,
            before.known,
            merged_path(style, source, folder, relative, source.projects[n - 1]),
        ),
    ensures
        is_added(style, source, folder, relative, known, start, after, n),
{
    let p = source.projects[n - 1];
    let path = merged_path(style, source, folder, relative, p);
    let all = known + merged_paths(style, source, folder, relative, n);
    let fewer = known + merged_paths(style, source, folder, relative, n - 1);
    assert(all =~= fewer.push(path));
    assert(all[fewer.len() as int] == path);
    assert forall|x: Seq<char>| fewer.contains(x) implies #[trigger] all.contains(x) by {
        assert(all[fewer.index_of(x)] == x);
    }
    assert forall|g: Seq<char>| is_project_id(source, n - 1, g) implies #[trigger] is_project_id(
        source,
        n,
        g,
    ) by {}
    assert(is_project_id(source, n, p.guid));
    assert forall|x: ProjectView| is_taken_from(source, n - 1, x) implies #[trigger] is_taken_from(
        source,
        n,
        x,
    ) by {}
    assert(after == before || (after.projects.drop_last() =~= before.projects
        && after.projects.last().guid == p.guid && after.projects.last().is_file == p.is_file
        && after.projects.last().name == p.name
        && after.known == before.known.push(path)
        && after.guids == sln_merge_kit::with_text(before.guids, p.guid)));
    if after != before {
        assert(after.projects.last() == after.projects[before.projects.len() as int]);
        assert(is_taken_from(source, n, after.projects.last()));
    }
    assert forall|g: Seq<char>| before.guids.contains(g) implies #[trigger] after.guids.contains(
        g,
    ) by {
        assert(after.guids[before.guids.index_of(g)] == g);
    }
    if after != before {
        if !before.guids.contains(p.guid) {
            assert(after.guids[before.guids.len() as int] == p.guid);
        }
    }
    assert forall|k: int| 0 <= k < after.known.len() implies all.contains(
        #[trigger] after.known[k],
    ) && is_accounted(style, source, folder, relative, start, after, n, after.known[k]) by {
        if k < before.known.len() {
            let x = before.known[k];
            assert(after.known[k] == x);
            assert(fewer.contains(x));
            assert(is_accounted(style, source, folder, relative, start, before, n - 1, x));
            if !start.known.contains(x) {
                if exists|q: int|
                    0 <= q < before.projects.len() && (#[trigger] before.projects[q]).is_file
                        && before.projects[q].path == x {
                    let q = choose|q: int|
                        0 <= q < before.projects.len() && (#[trigger] before.projects[q]).is_file
                            && before.projects[q].path == x;
                    assert(after.projects[q] == before.projects[q]);
                }
            }
        } else {
            assert(after.known[k] == path);
            if p.is_file {
                assert(after.projects[before.projects.len() as int].path == path);
            }
        }
    }
    assert forall|g: Seq<char>| !is_project_id(source, n, g) implies
        #[trigger] sln_merge_kit::folder_name(after.projects, g) == sln_merge_kit::folder_name(
        start.projects,
        g,
    ) by {
        assert(!is_project_id(source, n - 1, g));
        assert(sln_merge_kit::folder_name(before.projects, g) == sln_merge_kit::folder_name(
            start.projects,
            g,
        ));
    }
    assert forall|j: int| 0 <= j < n && !(#[trigger] source.projects[j]).is_file implies {
        &&& sln_merge_kit::folder_name(after.projects, source.projects[j].guid) == Some(
            source.projects[j].name,
        )
        &&& after.guids.contains(source.projects[j].guid)
        &&& folder_path_is_some(style, source, source.projects[j].guid)
        &&& is_folder_id(after.projects, source.projects[j].guid)
    } by {
        let g = source.projects[j].guid;
        if j < n - 1 {
            assert(source.projects[j].guid != source.projects[n - 1].guid);
            assert(is_folder_id(before.projects, g));
            let q = choose|q: int|
                0 <= q < before.projects.len() && !(#[trigger] before.projects[q]).is_file
                    && before.projects[q].guid == g;
            assert(after.projects[q] == before.projects[q]);
            assert(before.guids.contains(g));
        } else {
            assert(after != before);
            let q = before.projects.len() as int;
            assert(!after.projects[q].is_file && after.projects[q].guid == g);
        }
    }
    assert forall|g: Seq<char>| #[trigger] after.guids.contains(g) implies start.guids.contains(g)
        || is_project_id(source, n, g) by {
        if g != p.guid {
            let m = after.guids.index_of(g);
            assert(before.guids[m] == g);
            assert(before.guids.contains(g));
        }
    }
    assert forall|q: int| start.projects.len() <= q < after.projects.len() implies is_taken_from(
        source,
        n,
        #[trigger] after.projects[q],
    ) by {
        if q < before.projects.len() {
            assert(after.projects[q] == before.projects[q]);
            assert(is_taken_from(source, n - 1, before.projects[q]));
        }
    }
}

proof fn lemma_merged_nesting(
    sections: Seq<SectionView>,
    source: SlnView,
    guids: Seq<Seq<char>>,
    f: Seq<char>,
)
    requires
        sln_merge_kit::merge_sections(sections, source, guids, f) is Ok,
        is_nesting(sln_merge_kit::nesting_lines(source)),
        is_id(f),
        forall|g: Seq<char>| #[trigger] guids.contains(g) ==> is_id(g),
    ensures
        ({
            let after = sln_merge_kit::merge_sections(sections, source, guids, f)->Ok_0;
            let old_lines = sln_merge_kit::lines_of_section(sections, "NestedProjects"@);
            let lines = sln_merge_kit::lines_of_section(after, "NestedProjects"@);
            forall|g: Seq<char>| #[trigger]
                sln_merge_kit::parent_of(lines, g) == (if guids.contains(g) {
                    Some(
                        match sln_merge_kit::parent_of(sln_merge_kit::nesting_lines(source), g) {
                            Some(p) => p,
                            None => f,
                        },
                    )
                } else {
                    sln_merge_kit::parent_of(old_lines, g)
                })
        }),
{
    let after = sln_merge_kit::merge_sections(sections, source, guids, f)->Ok_0;
    let old_lines = sln_merge_kit::lines_of_section(sections, "NestedProjects"@);
    let lines = sln_merge_kit::lines_of_section(after, "NestedProjects"@);
    reveal_strlit("ProjectConfigurationPlatforms");
    reveal_strlit("NestedProjects");
    assert("ProjectConfigurationPlatforms"@.len() != "NestedProjects"@.len());
    sln_merge_kit::lemma_section_named(sections, "ProjectConfigurationPlatforms"@);
    let c = sln_merge_kit::section_named(sections, "ProjectConfigurationPlatforms"@)->0;
    let configured = sln_merge_kit::with_lines(
        sections,
        c,
        sections[c].lines + sln_merge_kit::lines_about(
            sln_merge_kit::lines_of_section(source.sections, "ProjectConfigurationPlatforms"@),
            guids,
        ),
    );
    sln_merge_kit::lemma_section_named_by_names(sections, configured, "NestedProjects"@);
    sln_merge_kit::lemma_section_named(configured, "NestedProjects"@);
    let n = sln_merge_kit::section_named(configured, "NestedProjects"@)->0;
    sln_merge_kit::lemma_section_named_by_names(configured, after, "NestedProjects"@);
    assert(n != c);
    assert(configured[n].lines == old_lines);
    let (taken, left) = sln_merge_kit::nest_lines(sln_merge_kit::nesting_lines(source), guids);
    let indent = sln_merge_kit::indent_of(old_lines);
    let under = sln_merge_kit::lines_under(left, indent, f);
    assert(lines == old_lines + taken + under);
    lemma_nest_lines(sln_merge_kit::nesting_lines(source), guids);
    lemma_indent(old_lines);
    assert forall|i: int| 0 <= i < left.len() implies is_id(#[trigger] left[i]) by {
        assert(left.contains(left[i]));
        assert(guids.contains(left[i]));
    }
    lemma_lines_under(left, indent, f);
    assert forall|g: Seq<char>| #[trigger]
        sln_merge_kit::parent_of(lines, g) == (if guids.contains(g) {
            Some(
                match sln_merge_kit::parent_of(sln_merge_kit::nesting_lines(source), g) {
                    Some(p) => p,
                    None => f,
                },
            )
        } else {
            sln_merge_kit::parent_of(old_lines, g)
        }) by {
        lemma_parent_of_both(old_lines + taken, under, g);
        lemma_parent_of_both(old_lines, taken, g);
        assert(left.contains(g) <==> guids.contains(g) && sln_merge_kit::parent_of(
            sln_merge_kit::nesting_lines(source),
            g,
        ) is None);
    }
}

/// The identifier of a folder stands in braces and has nothing in it that a line would be parted
/// at.
pub proof fn lemma_folder_id(folder: Seq<char>)
    requires
        sln_merge_kit::is_uuid(
            sln_merge_kit::named_uuid(sln_merge_kit::DNS_NAMESPACE, folder),
            true,
        ),
    ensures
        is_id(sln_merge_kit::folder_guid(folder)),
        sln_round_trip::lacks(sln_merge_kit::folder_guid(folder).skip(1), '{'),
        sln_round_trip::is_one_line(sln_merge_kit::folder_guid(folder)),
{
    reveal_strlit("{");
    reveal_strlit("}");
    let id = sln_merge_kit::named_uuid(sln_merge_kit::DNS_NAMESPACE, folder);
    let guid = sln_merge_kit::folder_guid(folder);
    assert forall|i: int| 1 <= i < 37 implies #[trigger] guid[i] == '-'
        || sln_merge_kit::is_hex(guid[i], true) by {
        assert(guid[i] == id[i - 1]);
    }
    assert(guid.len() == 38 && guid[0] == '{' && guid[37] == '}');
    let tail = guid.skip(1);
    assert forall|i: int| 0 <= i < tail.len() implies #[trigger] tail[i] != '{' by {
        assert(tail[i] == guid[i + 1]);
    }
}

/// A source that can be merged under a folder so that its folders are found there: its nesting
/// lines nest each project at most once and under folders of its own, its identifiers are
/// distinct and stand in braces, that of the folder is made of an identifier's text, and a path
/// under the folder is the one that joining the names one by one gives.
pub open spec fn is_orderly(style: char, folder: Seq<char>, source: SlnView) -> bool {
    let lines = sln_merge_kit::nesting_lines(source);
    &&& is_nesting(lines)
    &&& forall|c: Seq<char>|
        (#[trigger] sln_merge_kit::parent_of(lines, c)) matches Some(p)
            ==> sln_merge_kit::folder_name(source.projects, p) is Some
    &&& has_distinct_ids(source)
    &&& forall|j: int| 0 <= j < source.projects.len() ==> is_id((#[trigger] source.projects[j]).guid)
    &&& sln_merge_kit::is_uuid(
        sln_merge_kit::named_uuid(sln_merge_kit::DNS_NAMESPACE, folder),
        true,
    )
    &&& !names_id(source, sln_merge_kit::folder_guid(folder))
    &&& sln_merge_kit::path_of(style, seq![folder]) == folder
    &&& forall|j: int|
        0 <= j < source.projects.len() && !(#[trigger] source.projects[j]).is_file
            ==> match sln_merge_kit::folder_chain(
            source.projects,
            lines,
            source.projects[j].guid,
            lines.len(),
        ) {
            Some(names) => paths::joined_path(
                style,
                folder,
                sln_merge_kit::path_of(style, names),
            ) == sln_merge_kit::path_of(style, seq![folder] + names),
            None => true,
        }
}

/// A folder of the solution stands at the path.
spec fn is_placed(style: char, solution: SlnView, path: Seq<char>) -> bool {
    exists|j: int|
        0 <= j < solution.projects.len() && !(#[trigger] solution.projects[j]).is_file
            && sln_merge_kit::folder_path(style, solution, solution.projects[j].guid) == Some(path)
}

/// The path is that of a file of the solution, or one at which a folder of it stands.
spec fn is_found(style: char, solution: SlnView, path: Seq<char>) -> bool {
    sln_merge_kit::is_file_path(solution, path) || is_placed(style, solution, path)
}

/// The folders of the solution do not contain one another, and every path known is found.
spec fn is_settled(style: char, state: MergeState) -> bool {
    &&& forall|j: int|
        0 <= j < state.target.projects.len() && !(#[trigger] state.target.projects[j]).is_file
            ==> sln_merge_kit::folder_path(style, state.target, state.target.projects[j].guid)
            is Some
    &&& forall|k: int|
        0 <= k < state.known.len() ==> is_found(style, state.target, #[trigger] state.known[k])
}

proof fn lemma_kept_found(style: char, a: SlnView, b: SlnView, path: Seq<char>)
    requires
        keeps(a, b),
        a.projects.len() <= b.projects.len(),
        forall|q: int| 0 <= q < a.projects.len() ==> #[trigger] b.projects[q] == a.projects[q],
    ensures
        is_placed(style, a, path) ==> is_placed(style, b, path),
        is_found(style, a, path) ==> is_found(style, b, path),
{
    if is_placed(style, a, path) {
        let j = choose|j: int|
            0 <= j < a.projects.len() && !(#[trigger] a.projects[j]).is_file
                && sln_merge_kit::folder_path(style, a, a.projects[j].guid) == Some(path);
        assert(names_id(a, a.projects[j].guid));
        lemma_kept_path(style, a, b, a.projects[j].guid);
        assert(b.projects[j] == a.projects[j]);
    }
    if sln_merge_kit::is_file_path(a, path) {
        let j = choose|j: int|
            0 <= j < a.projects.len() && (#[trigger] a.projects[j]).is_file && a.projects[j].path
                == path;
        assert(b.projects[j] == a.projects[j]);
    }
}

proof fn lemma_folder_name_is_own(projects: Seq<ProjectView>, g: Seq<char>)
    requires
        sln_merge_kit::folder_name(projects, g) is Some,
    ensures
        exists|j: int|
            0 <= j < projects.len() && !(#[trigger] projects[j]).is_file && projects[j].guid == g
                && sln_merge_kit::folder_name(projects, g) == Some(projects[j].name),
    decreases projects.len(),
{
    let last = projects.len() - 1;
    if !projects.last().is_file && projects.last().guid == g {
        assert(projects[last].guid == g);
    } else {
        let front = projects.drop_last();
        lemma_folder_name_is_own(front, g);
        let j = choose|j: int|
            0 <= j < front.len() && !(#[trigger] front[j]).is_file && front[j].guid == g
                && sln_merge_kit::folder_name(front, g) == Some(front[j].name);
        assert(projects[j] == front[j]);
    }
}

/// What the merged solution says of the folders of a source: each stands where it stood in the
/// source, and the outermost under the folder of the source.
spec fn has_source(folder: Seq<char>, source: SlnView, b: SlnView) -> bool {
    let lines = sln_merge_kit::nesting_lines(source);
    let all = sln_merge_kit::nesting_lines(b);
    let f = sln_merge_kit::folder_guid(folder);
    &&& sln_merge_kit::parent_of(all, f) is None
    &&& sln_merge_kit::folder_name(b.projects, f) == Some(folder)
    &&& forall|j: int|
        0 <= j < source.projects.len() && !(#[trigger] source.projects[j]).is_file ==> {
            let g = source.projects[j].guid;
            &&& sln_merge_kit::folder_name(b.projects, g) == Some(source.projects[j].name)
            &&& sln_merge_kit::folder_name(source.projects, g) == Some(source.projects[j].name)
            &&& sln_merge_kit::parent_of(all, g) == Some(
                match sln_merge_kit::parent_of(lines, g) {
                    Some(p) => p,
                    None => f,
                },
            )
        }
}

proof fn lemma_source_chain(
    style: char,
    folder: Seq<char>,
    source: SlnView,
    b: SlnView,
    j: int,
    depth: nat,
)
    requires
        is_orderly(style, folder, source),
        has_source(folder, source, b),
        0 <= j < source.projects.len(),
        !source.projects[j].is_file,
        sln_merge_kit::folder_chain(
            source.projects,
            sln_merge_kit::nesting_lines(source),
            source.projects[j].guid,
            depth,
        ) is Some,
    ensures
        sln_merge_kit::folder_chain(
            b.projects,
            sln_merge_kit::nesting_lines(b),
            source.projects[j].guid,
            depth + 1,
        ) == Some(
            seq![folder] + sln_merge_kit::folder_chain(
                source.projects,
                sln_merge_kit::nesting_lines(source),
                source.projects[j].guid,
                depth,
            )->0,
        ),
    decreases depth,
{
    let lines = sln_merge_kit::nesting_lines(source);
    let all = sln_merge_kit::nesting_lines(b);
    let g = source.projects[j].guid;
    let name = seq![source.projects[j].name];
    let f = sln_merge_kit::folder_guid(folder);
    assert(sln_merge_kit::own_name(source.projects, g) == name);
    assert(sln_merge_kit::own_name(b.projects, g) == name);
    match sln_merge_kit::parent_of(lines, g) {
        None => {
            assert(sln_merge_kit::parent_of(all, g) == Some(f));
            assert(sln_merge_kit::folder_chain(b.projects, all, f, depth) == Some(seq![folder]));
        },
        Some(p) => {
            lemma_folder_name_is_own(source.projects, p);
            let i = choose|i: int|
                0 <= i < source.projects.len() && !(#[trigger] source.projects[i]).is_file
                    && source.projects[i].guid == p;
            lemma_source_chain(style, folder, source, b, i, (depth - 1) as nat);
            let around = sln_merge_kit::folder_chain(
                source.projects,
                lines,
                p,
                (depth - 1) as nat,
            )->0;
            assert(sln_merge_kit::folder_chain(b.projects, all, p, depth) == Some(
                seq![folder] + around,
            ));
            assert((seq![folder] + around) + name =~= seq![folder] + (around + name));
        },
    }
}

proof fn lemma_source_path(style: char, folder: Seq<char>, source: SlnView, b: SlnView, j: int)
    requires
        is_orderly(style, folder, source),
        has_source(folder, source, b),
        0 <= j < source.projects.len(),
        !source.projects[j].is_file,
        sln_merge_kit::folder_path(style, source, source.projects[j].guid) is Some,
    ensures
        sln_merge_kit::folder_path(style, b, source.projects[j].guid) == Some(
            paths::joined_path(
                style,
                folder,
                sln_merge_kit::folder_path(style, source, source.projects[j].guid)->0,
            ),
        ),
{
    let lines = sln_merge_kit::nesting_lines(source);
    lemma_source_chain(style, folder, source, b, j, lines.len());
    lemma_full_chain(
        b.projects,
        sln_merge_kit::nesting_lines(b),
        source.projects[j].guid,
        lines.len() + 1,
    );
}

proof fn lemma_distinct_folder_name(solution: SlnView, n: int, j: int)
    requires
        has_distinct_ids(solution),
        0 <= j < n <= solution.projects.len(),
        !solution.projects[j].is_file,
    ensures
        sln_merge_kit::folder_name(solution.projects.take(n), solution.projects[j].guid) == Some(
            solution.projects[j].name,
        ),
    decreases n,
{
    let taken = solution.projects.take(n);
    assert(taken.drop_last() =~= solution.projects.take(n - 1));
    assert(taken.last() == solution.projects[n - 1]);
    if j < n - 1 {
        assert(solution.projects[j].guid != solution.projects[n - 1].guid);
        lemma_distinct_folder_name(solution, n - 1, j);
    }
}

/// Merging one orderly source keeps what was settled, and settles the folders of the source.
proof fn lemma_merge_settles(
    style: char,
    first_guid: Seq<char>,
    path: Seq<char>,
    relative: Seq<char>,
    source: SlnView,
    state: MergeState,
    known: Seq<Seq<char>>,
)
    requires
        sln_merge_kit::merge_solution(style, first_guid, path, relative, source, state) is Ok,
        is_orderly(style, sln_merge_kit::source_folder(style, path), source),
        is_settled(style, state),
        forall|k: int| 0 <= k < state.known.len() ==> known.contains(#[trigger] state.known[k]),
        !sln_merge_kit::is_known(style, known, sln_merge_kit::source_folder(style, path)),
        has_new_folders(
            style,
            source,
            sln_merge_kit::source_folder(style, path),
            relative,
            known,
            source.projects.len() as int,
        ),
        forall|g: Seq<char>| #[trigger]
            names_id(state.target, g) ==> !names_id(source, g) && g != sln_merge_kit::folder_guid(
                sln_merge_kit::source_folder(style, path),
            ),
    ensures
        ({
            let folder = sln_merge_kit::source_folder(style, path);
            let next = sln_merge_kit::merge_solution(
                style,
                first_guid,
                path,
                relative,
                source,
                state,
            )->Ok_0;
            let all = known + merged_paths(
                style,
                source,
                folder,
                relative,
                source.projects.len() as int,
            );
            &&& is_settled(style, next)
            &&& is_placed(style, next.target, folder)
            &&& keeps(state.target, next.target)
            &&& state.target.projects.len() <= next.target.projects.len()
            &&& forall|q: int|
                0 <= q < state.target.projects.len() ==> #[trigger] next.target.projects[q]
                    == state.target.projects[q]
            &&& forall|k: int| 0 <= k < next.known.len() ==> all.contains(#[trigger] next.known[k])
            &&& forall|g: Seq<char>| #[trigger]
                names_id(next.target, g) ==> names_id(state.target, g) || names_id(source, g) || g
                    == sln_merge_kit::folder_guid(folder)
        }),
{
    let folder = sln_merge_kit::source_folder(style, path);
    let f = sln_merge_kit::folder_guid(folder);
    let count = source.projects.len() as int;
    if sln_merge_kit::is_known(style, state.known, folder) {
        sln_merge_kit::lemma_known_in_more(style, state.known, known, folder);
    }
    let start = Added {
        projects: state.target.projects.push(sln_merge_kit::folder_project(folder, first_guid)),
        known: state.known,
        guids: Seq::empty(),
    };
    let added = sln_merge_kit::add_projects(
        style,
        source,
        folder,
        relative,
        first_guid,
        start,
        count,
    )->0;
    let next = sln_merge_kit::merge_solution(
        style,
        first_guid,
        path,
        relative,
        source,
        state,
    )->Ok_0;
    let a = state.target;
    let b = next.target;
    lemma_is_added(style, source, folder, relative, first_guid, known, start, count);
    assert forall|g: Seq<char>| #[trigger] added.guids.contains(g) implies is_id(g) && names_id(
        source,
        g,
    ) by {
        assert(is_project_id(source, count, g));
    }
    lemma_folder_id(folder);
    lemma_merged_nesting(a.sections, source, added.guids, f);
    let at = state.target.projects.len() as int;
    assert(start.projects[at] == sln_merge_kit::folder_project(folder, first_guid));
    assert(start.projects.drop_last() =~= a.projects);
    assert(start.projects.last() == start.projects[at]);
    assert(!is_project_id(source, count, f));
    assert(sln_merge_kit::folder_name(added.projects, f) == Some(folder));
    assert forall|q: int| 0 <= q < a.projects.len() implies #[trigger] b.projects[q]
        == a.projects[q] by {
        assert(added.projects[q] == start.projects[q]);
    }
    assert(keeps(a, b)) by {
        assert forall|g: Seq<char>| #[trigger] names_id(a, g) implies {
            &&& sln_merge_kit::parent_of(sln_merge_kit::nesting_lines(b), g)
                == sln_merge_kit::parent_of(sln_merge_kit::nesting_lines(a), g)
            &&& sln_merge_kit::folder_name(b.projects, g) == sln_merge_kit::folder_name(
                a.projects,
                g,
            )
        } by {
            assert(!added.guids.contains(g));
            assert(!is_project_id(source, count, g));
            assert(sln_merge_kit::folder_name(added.projects, g) == sln_merge_kit::folder_name(
                start.projects,
                g,
            ));
        }
    }
    assert(has_source(folder, source, b)) by {
        assert(!names_id(a, f));
        assert(!added.guids.contains(f));
        assert(sln_merge_kit::parent_of(sln_merge_kit::nesting_lines(b), f) is None);
        assert forall|j: int|
            0 <= j < source.projects.len() && !(#[trigger] source.projects[j]).is_file implies {
            let g = source.projects[j].guid;
            &&& sln_merge_kit::folder_name(b.projects, g) == Some(source.projects[j].name)
            &&& sln_merge_kit::folder_name(source.projects, g) == Some(source.projects[j].name)
            &&& sln_merge_kit::parent_of(sln_merge_kit::nesting_lines(b), g) == Some(
                match sln_merge_kit::parent_of(sln_merge_kit::nesting_lines(source), g) {
                    Some(p) => p,
                    None => f,
                },
            )
        } by {
            lemma_distinct_folder_name(source, count, j);
            assert(source.projects.take(count) =~= source.projects);
            assert(added.guids.contains(source.projects[j].guid));
        }
    }
    assert(sln_merge_kit::folder_path(style, b, f) == Some(folder)) by {
        assert(sln_merge_kit::own_name(b.projects, f) == seq![folder]);
    }
    assert(b.projects[at] == start.projects[at]);
    assert(is_placed(style, b, folder));
    lemma_next_is_settled(style, folder, relative, source, state, next, start, added, known);
    assert forall|g: Seq<char>| #[trigger] names_id(b, g) implies names_id(a, g) || names_id(
        source,
        g,
    ) || g == f by {
        lemma_ids_of_next(style, folder, relative, source, a, b, start, added, known, g);
    }
}

proof fn lemma_next_is_settled(
    style: char,
    folder: Seq<char>,
    relative: Seq<char>,
    source: SlnView,
    state: MergeState,
    next: MergeState,
    start: Added,
    added: Added,
    known: Seq<Seq<char>>,
)
    requires
        is_orderly(style, folder, source),
        is_settled(style, state),
        keeps(state.target, next.target),
        has_source(folder, source, next.target),
        is_placed(style, next.target, folder),
        sln_merge_kit::folder_path(
            style,
            next.target,
            sln_merge_kit::folder_guid(folder),
        ) is Some,
        start.known == state.known,
        start.projects.len() == state.target.projects.len() + 1,
        start.projects.last().guid == sln_merge_kit::folder_guid(folder),
        state.target.projects.len() <= next.target.projects.len(),
        forall|q: int|
            0 <= q < state.target.projects.len() ==> #[trigger] next.target.projects[q]
                == state.target.projects[q],
        next.target.projects == added.projects,
        next.known == added.known,
        is_added(
            style,
            source,
            folder,
            relative,
            known,
            start,
            added,
            source.projects.len() as int,
        ),
    ensures
        is_settled(style, next),
{
    let a = state.target;
    let b = next.target;
    let count = source.projects.len() as int;
    assert forall|q: int| 0 <= q < b.projects.len() && !(#[trigger] b.projects[q]).is_file implies
        sln_merge_kit::folder_path(style, b, b.projects[q].guid) is Some by {
        if q < a.projects.len() {
            assert(b.projects[q] == a.projects[q]);
            assert(names_id(a, a.projects[q].guid));
            lemma_kept_path(style, a, b, a.projects[q].guid);
        } else if q == a.projects.len() {
            assert(added.projects[q] == start.projects[q]);
        } else {
            assert(is_taken_from(source, count, added.projects[q]));
            let j = choose|j: int|
                0 <= j < count && (#[trigger] source.projects[j]).guid == b.projects[q].guid
                    && source.projects[j].is_file == b.projects[q].is_file;
            assert(folder_path_is_some(style, source, source.projects[j].guid));
            lemma_source_path(style, folder, source, b, j);
        }
    }
    assert forall|k: int| 0 <= k < next.known.len() implies is_found(
        style,
        b,
        #[trigger] next.known[k],
    ) by {
        let x = next.known[k];
        assert(is_accounted(style, source, folder, relative, start, added, count, x));
        if start.known.contains(x) {
            let m = start.known.index_of(x);
            assert(is_found(style, a, state.known[m]));
            lemma_kept_found(style, a, b, x);
        } else if exists|j: int|
            0 <= j < count && !(#[trigger] source.projects[j]).is_file && merged_path(
                style,
                source,
                folder,
                relative,
                source.projects[j],
            ) == x {
            let j = choose|j: int|
                0 <= j < count && !(#[trigger] source.projects[j]).is_file && merged_path(
                    style,
                    source,
                    folder,
                    relative,
                    source.projects[j],
                ) == x;
            let g = source.projects[j].guid;
            assert(folder_path_is_some(style, source, g));
            lemma_source_path(style, folder, source, b, j);
            assert(is_folder_id(added.projects, g));
            let q = choose|q: int|
                0 <= q < added.projects.len() && !(#[trigger] added.projects[q]).is_file
                    && added.projects[q].guid == g;
            assert(!b.projects[q].is_file && b.projects[q].guid == g);
        }
    }
}

proof fn lemma_ids_of_next(
    style: char,
    folder: Seq<char>,
    relative: Seq<char>,
    source: SlnView,
    a: SlnView,
    b: SlnView,
    start: Added,
    added: Added,
    known: Seq<Seq<char>>,
    g: Seq<char>,
)
    requires
        names_id(b, g),
        b.projects == added.projects,
        start.guids.len() == 0,
        start.projects.len() == a.projects.len() + 1,
        start.projects.last().guid == sln_merge_kit::folder_guid(folder),
        forall|q: int| 0 <= q < a.projects.len() ==> #[trigger] b.projects[q] == a.projects[q],
        is_added(
            style,
            source,
            folder,
            relative,
            known,
            start,
            added,
            source.projects.len() as int,
        ),
        forall|c: Seq<char>| #[trigger]
            sln_merge_kit::parent_of(sln_merge_kit::nesting_lines(b), c) == (
            if added.guids.contains(c) {
                Some(
                    match sln_merge_kit::parent_of(sln_merge_kit::nesting_lines(source), c) {
                        Some(p) => p,
                        None => sln_merge_kit::folder_guid(folder),
                    },
                )
            } else {
                sln_merge_kit::parent_of(sln_merge_kit::nesting_lines(a), c)
            }),
    ensures
        names_id(a, g) || names_id(source, g) || g == sln_merge_kit::folder_guid(folder),
{
    let count = source.projects.len() as int;
    let all = sln_merge_kit::nesting_lines(b);
    if exists|j: int| 0 <= j < b.projects.len() && (#[trigger] b.projects[j]).guid == g {
        let q = choose|q: int| 0 <= q < b.projects.len() && (#[trigger] b.projects[q]).guid == g;
        if q < a.projects.len() {
            assert(a.projects[q].guid == g);
        } else if q == a.projects.len() {
            assert(added.projects[q] == start.projects[q]);
        } else {
            assert(is_taken_from(source, count, added.projects[q]));
        }
    } else if sln_merge_kit::parent_of(all, g) is Some {
        if added.guids.contains(g) {
            assert(is_project_id(source, count, g));
        }
    } else {
        let c = choose|c: Seq<char>| #[trigger] sln_merge_kit::parent_of(all, c) == Some(g);
        if added.guids.contains(c) {
            assert(sln_merge_kit::parent_of(sln_merge_kit::nesting_lines(source), c) is Some
                ==> names_id(source, g));
        } else {
            assert(sln_merge_kit::parent_of(sln_merge_kit::nesting_lines(a), c) == Some(g));
        }
    }
}

/// The identifier is one that the target or one of the first `n` sources speaks of, or that of
/// the folder of such a source.
pub open spec fn is_used(
    style: char,
    target: SlnView,
    sources: Seq<SourceView>,
    n: int,
    g: Seq<char>,
) -> bool
    decreases n,
{
    if n <= 0 {
        names_id(target, g)
    } else {
        ||| is_used(style, target, sources, n - 1, g)
        ||| sources[n - 1].parsed matches Ok(data) && (names_id(data, g) || g
            == sln_merge_kit::folder_guid(
            sln_merge_kit::source_folder(style, sources[n - 1].path),
        ))
    }
}

/// The path of a source's directory from that of the target.
pub open spec fn path_from(style: char, target_path: Seq<char>, source: SourceView) -> Seq<char> {
    match paths::relative_path(
        style,
        sln_merge_kit::directory_of(style, source.path),
        sln_merge_kit::directory_of(style, target_path),
    ) {
        Some(relative) => relative,
        None => Seq::empty(),
    }
}

/// The paths of `known`, and those under which the projects of the first `n` sources are merged.
pub open spec fn paths_of_all(
    style: char,
    target_path: Seq<char>,
    known: Seq<Seq<char>>,
    sources: Seq<SourceView>,
    n: int,
) -> Seq<Seq<char>>
    decreases n,
{
    if n <= 0 {
        known
    } else {
        paths_of_all(style, target_path, known, sources, n - 1) + match sources[n - 1].parsed {
            Ok(data) => merged_paths(
                style,
                data,
                sln_merge_kit::source_folder(style, sources[n - 1].path),
                path_from(style, target_path, sources[n - 1]),
                data.projects.len() as int,
            ),
            Err(_) => Seq::empty(),
        }
    }
}

/// Source `i`, where it was read, is orderly, its identifiers and that of its folder are used by
/// nothing before it, and its folder and the folders in it stand at paths of their own.
pub open spec fn is_separate(
    style: char,
    target_path: Seq<char>,
    target: SlnView,
    known: Seq<Seq<char>>,
    sources: Seq<SourceView>,
    i: int,
) -> bool {
    let folder = sln_merge_kit::source_folder(style, sources[i].path);
    let before = paths_of_all(style, target_path, known, sources, i);
    sources[i].parsed matches Ok(data) ==> {
        &&& is_orderly(style, folder, data)
        &&& forall|g: Seq<char>| #[trigger]
            is_used(style, target, sources, i, g) ==> !names_id(data, g) && g
                != sln_merge_kit::folder_guid(folder)
        &&& !sln_merge_kit::is_known(style, before, folder)
        &&& has_new_folders(
            style,
            data,
            folder,
            path_from(style, target_path, sources[i]),
            before,
            data.projects.len() as int,
        )
    }
}

/// The sources can be merged into the target without meeting one another or what is there.
pub open spec fn are_separate(
    style: char,
    target_path: Seq<char>,
    target: SlnView,
    sources: Seq<SourceView>,
) -> bool {
    sln_merge_kit::known_paths(style, target, target.projects.len() as int) matches Some(known)
        && forall|i: int|
        0 <= i < sources.len() && (#[trigger] sources[i]).parsed is Ok ==> is_separate(
            style,
            target_path,
            target,
            known,
            sources,
            i,
        )
}

proof fn lemma_known_paths_are_found(style: char, target: SlnView, n: int)
    requires
        0 <= n <= target.projects.len(),
        sln_merge_kit::known_paths(style, target, n) is Some,
    ensures
        forall|j: int|
            0 <= j < n && !(#[trigger] target.projects[j]).is_file ==> sln_merge_kit::folder_path(
                style,
                target,
                target.projects[j].guid,
            ) is Some,
        ({
            let known = sln_merge_kit::known_paths(style, target, n)->0;
            forall|k: int| 0 <= k < known.len() ==> is_found(style, target, #[trigger] known[k])
        }),
    decreases n,
{
    if n > 0 {
        lemma_known_paths_are_found(style, target, n - 1);
        let before = sln_merge_kit::known_paths(style, target, n - 1)->0;
        let known = sln_merge_kit::known_paths(style, target, n)->0;
        let p = target.projects[n - 1];
        assert forall|k: int| 0 <= k < known.len() implies is_found(
            style,
            target,
            #[trigger] known[k],
        ) by {
            if k < before.len() {
                assert(known[k] == before[k]);
            } else if p.is_file {
                assert(sln_merge_kit::is_file_path(target, known[k]));
            } else {
                assert(is_placed(style, target, known[k]));
            }
        }
    }
}

proof fn lemma_placed_is_known(style: char, target: SlnView, n: int, path: Seq<char>, j: int)
    requires
        0 <= j < n <= target.projects.len(),
        !target.projects[j].is_file,
        sln_merge_kit::folder_path(style, target, target.projects[j].guid) == Some(path),
        sln_merge_kit::known_paths(style, target, n) is Some,
    ensures
        sln_merge_kit::known_paths(style, target, n)->0.contains(path),
    decreases n,
{
    let all = sln_merge_kit::known_paths(style, target, n)->0;
    let before = sln_merge_kit::known_paths(style, target, n - 1)->0;
    if j == n - 1 {
        assert(all[all.len() - 1] == path);
    } else {
        lemma_placed_is_known(style, target, n - 1, path, j);
        assert(all[before.index_of(path)] == path);
    }
}

proof fn lemma_settled_paths(style: char, target: SlnView, n: int)
    requires
        0 <= n <= target.projects.len(),
        forall|j: int|
            0 <= j < n && !(#[trigger] target.projects[j]).is_file ==> sln_merge_kit::folder_path(
                style,
                target,
                target.projects[j].guid,
            ) is Some,
    ensures
        sln_merge_kit::known_paths(style, target, n) is Some,
    decreases n,
{
    if n > 0 {
        lemma_settled_paths(style, target, n - 1);
    }
}

proof fn lemma_merge_all_settles(
    style: char,
    target_path: Seq<char>,
    first_guid: Seq<char>,
    target: SlnView,
    known: Seq<Seq<char>>,
    sources: Seq<SourceView>,
    n: int,
)
    requires
        0 <= n <= sources.len(),
        sln_merge_kit::known_paths(style, target, target.projects.len() as int) == Some(known),
        forall|i: int|
            0 <= i < sources.len() && (#[trigger] sources[i]).parsed is Ok ==> is_separate(
                style,
                target_path,
                target,
                known,
                sources,
                i,
            ),
        sln_merge_kit::merge_all(
            style,
            sln_merge_kit::directory_of(style, target_path),
            first_guid,
            sources,
            MergeState { target, known },
            n,
        ) is Ok,
    ensures
        ({
            let end = sln_merge_kit::merge_all(
                style,
                sln_merge_kit::directory_of(style, target_path),
                first_guid,
                sources,
                MergeState { target, known },
                n,
            )->Ok_0;
            let all = paths_of_all(style, target_path, known, sources, n);
            &&& is_settled(style, end)
            &&& forall|k: int| 0 <= k < end.known.len() ==> all.contains(#[trigger] end.known[k])
            &&& forall|g: Seq<char>| #[trigger]
                names_id(end.target, g) ==> is_used(style, target, sources, n, g)
            &&& forall|i: int|
                0 <= i < n && (#[trigger] sources[i]).parsed is Ok ==> is_placed(
                    style,
                    end.target,
                    sln_merge_kit::source_folder(style, sources[i].path),
                )
        }),
    decreases n,
{
    let dir = sln_merge_kit::directory_of(style, target_path);
    let start = MergeState { target, known };
    let end = sln_merge_kit::merge_all(style, dir, first_guid, sources, start, n)->Ok_0;
    if n == 0 {
        let count = target.projects.len() as int;
        lemma_known_paths_are_found(style, target, count);
        assert(end == start);
        assert(sln_merge_kit::known_paths(style, target, count)->0 == known);
        assert forall|k: int| 0 <= k < end.known.len() implies known.contains(
            #[trigger] end.known[k],
        ) && is_found(style, target, end.known[k]) by {
            assert(known[k] == end.known[k]);
            assert(known.contains(known[k]));
            assert(is_found(style, target, sln_merge_kit::known_paths(style, target, count)->0[k]));
        }
    } else {
        lemma_merge_all_settles(style, target_path, first_guid, target, known, sources, n - 1);
        let state = sln_merge_kit::merge_all(style, dir, first_guid, sources, start, n - 1)->Ok_0;
        let before = paths_of_all(style, target_path, known, sources, n - 1);
        let source = sources[n - 1];
        match source.parsed {
            Err(_) => {
                assert(before + Seq::<Seq<char>>::empty() =~= before);
                assert(end == state);
                assert forall|g: Seq<char>| #[trigger] names_id(end.target, g) implies is_used(
                    style,
                    target,
                    sources,
                    n,
                    g,
                ) by {
                    assert(is_used(style, target, sources, n - 1, g));
                }
                assert(paths_of_all(style, target_path, known, sources, n) == before);
            },
            Ok(data) => {
                assert(is_separate(style, target_path, target, known, sources, n - 1));
                assert forall|g: Seq<char>| #[trigger] names_id(state.target, g) implies !names_id(
                    data,
                    g,
                ) && g != sln_merge_kit::folder_guid(
                    sln_merge_kit::source_folder(style, source.path),
                ) by {
                    assert(is_used(style, target, sources, n - 1, g));
                }
                lemma_merge_settles(
                    style,
                    first_guid,
                    source.path,
                    path_from(style, target_path, source),
                    data,
                    state,
                    before,
                );
                assert(paths_of_all(style, target_path, known, sources, n) == before
                    + merged_paths(
                    style,
                    data,
                    sln_merge_kit::source_folder(style, source.path),
                    path_from(style, target_path, source),
                    data.projects.len() as int,
                ));
                assert forall|i: int| 0 <= i < n && (#[trigger] sources[i]).parsed is Ok implies
                    is_placed(
                    style,
                    end.target,
                    sln_merge_kit::source_folder(style, sources[i].path),
                ) by {
                    if i < n - 1 {
                        lemma_kept_found(
                            style,
                            state.target,
                            end.target,
                            sln_merge_kit::source_folder(style, sources[i].path),
                        );
                    }
                }
                assert forall|g: Seq<char>| #[trigger] names_id(end.target, g) implies is_used(
                    style,
                    target,
                    sources,
                    n,
                    g,
                ) by {
                    if names_id(state.target, g) {
                        assert(is_used(style, target, sources, n - 1, g));
                    }
                }
            },
        }
    }
}

/// Merging the same solutions a second time changes nothing: where the sources meet neither one
/// another nor what the target holds, the solution that the first merging made is what the second
/// makes of it.
pub proof fn law_merging_twice_changes_nothing(
    style: char,
    target_path: Seq<char>,
    target: SlnView,
    sources: Seq<SourceView>,
    fresh: Seq<char>,
    again: Seq<char>,
)
    requires
        are_separate(style, target_path, target, sources),
    ensures
        sln_merge_kit::merged(style, target_path, target, sources, fresh) matches Ok(once)
            ==> sln_merge_kit::merged(style, target_path, once, sources, again) == Ok::<
            SlnView,
            SlnFault,
        >(once),
{
    let known = sln_merge_kit::known_paths(style, target, target.projects.len() as int)->0;
    let dir = sln_merge_kit::directory_of(style, target_path);
    let n = sources.len() as int;
    let first_type = match sln_merge_kit::folder_type(target.projects) {
        Some(g) => g,
        None => fresh,
    };
    let start = MergeState { target, known };
    if let Ok(end) = sln_merge_kit::merge_all(style, dir, first_type, sources, start, n) {
        lemma_merge_all_settles(style, target_path, first_type, target, known, sources, n);
        let count = end.target.projects.len() as int;
        lemma_settled_paths(style, end.target, count);
        let found = sln_merge_kit::known_paths(style, end.target, count)->0;
        assert forall|path: Seq<char>| #[trigger] is_placed(
            style,
            end.target,
            path,
        ) implies found.contains(path) && sln_merge_kit::is_known(style, found, path) by {
            let j = choose|j: int|
                0 <= j < end.target.projects.len() && !(#[trigger] end.target.projects[j]).is_file
                    && sln_merge_kit::folder_path(style, end.target, end.target.projects[j].guid)
                    == Some(path);
            lemma_placed_is_known(style, end.target, count, path, j);
            assert(found[found.index_of(path)] == path);
        }
        assert forall|k: int| 0 <= k < end.known.len() implies sln_merge_kit::is_file_path(
            end.target,
            #[trigger] end.known[k],
        ) || found.contains(end.known[k]) by {
            assert(is_found(style, end.target, end.known[k]));
        }
        sln_merge_kit::lemma_merging_again_changes_nothing(
            style,
            target_path,
            target,
            sources,
            first_type,
            known,
            end,
            found,
            again,
        );
    }
}

} // verus!
