//! What the recipes of packages come to: what they require, and the order in which packages are
//! built.

use crate::conanfile::{self, ConanfileError, DependencyTopologicalInfo};
use crate::package_graph;
use crate::text;
use crate::text_laws;
use petgraph::graph::DiGraph;
use vstd::prelude::*;

verus! {

/// A quotation mark of either kind, the name and a slash stand in the recipe, whatever follows.
pub open spec fn is_mentioned(content: Seq<char>, name: Seq<char>) -> bool {
    exists|before: Seq<char>, quote: char, after: Seq<char>|
        (quote == '"' || quote == '\'') && content == #[trigger] (before + seq![quote] + name + seq![
            '/',
        ] + after)
}

proof fn lemma_mentioned(content: Seq<char>, name: Seq<char>)
    ensures
        is_mentioned(content, name) <==> conanfile::mentions_package(content, name),
{
    let sub = name.push('/');
    if is_mentioned(content, name) {
        let (before, quote, after) = choose|before: Seq<char>, quote: char, after: Seq<char>|
            (quote == '"' || quote == '\'') && content == #[trigger] (before + seq![quote] + name
                + seq!['/'] + after);
        let i = before.len() as int;
        assert(content[i] == quote);
        assert(content.subrange(i + 1, i + 1 + sub.len()) =~= sub);
        assert(text::occurs_at(content, sub, i + 1));
        assert(conanfile::is_quote(content[i]));
    }
    if conanfile::mentions_package(content, name) {
        let i = choose|i: int|
            0 <= i < content.len() && conanfile::is_quote(#[trigger] content[i])
                && text::occurs_at(content, sub, i + 1);
        let before = content.take(i);
        let after = content.skip(i + 1 + sub.len());
        let quote = content[i];
        let made = before + seq![quote] + name + seq!['/'] + after;
        let middle = content.subrange(i + 1, i + 1 + sub.len());
        assert(made =~= before + seq![quote] + sub + after);
        assert(content =~= before + seq![quote] + middle + after);
    }
}

/// A recipe requires exactly those names of a list that stand in it behind a quotation mark and
/// before a slash, whatever version follows; they are found in the order of the list. (A name that
/// is too long to be looked for is not found.)
pub proof fn law_required_packages_are_found(content: &str, names: &Vec<String>, r: Vec<String>)
    requires
        call_ensures(conanfile::find_dependence_in_conanfile, (content, names), r),
    ensures
        text::texts(r@) == text::texts(names@).filter(
            |name: Seq<char>|
                conanfile::pattern_compiles(name, usize::BITS) && is_mentioned(content@, name),
        ),
{
    lemma_required_in(content@, text::texts(names@));
}

proof fn lemma_required_in(content: Seq<char>, names: Seq<Seq<char>>)
    ensures
        conanfile::required_in(content, names) == names.filter(
            |name: Seq<char>|
                conanfile::pattern_compiles(name, usize::BITS) && is_mentioned(content, name),
        ),
    decreases names.len(),
{
    reveal(Seq::filter);
    if names.len() > 0 {
        lemma_required_in(content, names.drop_last());
        lemma_mentioned(content, names.last());
    }
}

/// No later name is the same.
pub open spec fn is_last_of_its_name(names: Seq<Seq<char>>, i: int) -> bool {
    forall|k: int| i < k < names.len() ==> #[trigger] names[k] != names[i]
}

proof fn lemma_last_named(names: Seq<Seq<char>>, name: Seq<char>)
    ensures
        match conanfile::last_named(names, name) {
            Some(i) => 0 <= i < names.len() && names[i] == name && is_last_of_its_name(names, i),
            None => !names.contains(name),
        },
    decreases names.len(),
{
    if names.len() > 0 && names.last() != name {
        let front = names.drop_last();
        lemma_last_named(front, name);
        match conanfile::last_named(front, name) {
            Some(i) => {
                assert forall|k: int| i < k < names.len() implies #[trigger] names[k]
                    != names[i] by {
                    if k < front.len() {
                        assert(front[k] == names[k]);
                    }
                }
            },
            None => {
                if names.contains(name) {
                    let k = names.index_of(name);
                    assert(front[k] == name);
                }
            },
        }
    }
}

proof fn lemma_edges_to(names: Seq<Seq<char>>, i: int, found: Seq<Seq<char>>)
    ensures
        forall|a: int, b: int| #[trigger]
            conanfile::edges_to(names, i, found).contains((a, b)) <==> a == i && 0 <= b < names.len()
                && is_last_of_its_name(names, b) && found.contains(names[b]),
    decreases found.len(),
{
    let all = conanfile::edges_to(names, i, found);
    if found.len() > 0 {
        let front = found.drop_last();
        lemma_edges_to(names, i, front);
        lemma_last_named(names, found.last());
        let rest = conanfile::edges_to(names, i, front);
        let at = conanfile::last_named(names, found.last());
        assert forall|a: int, b: int| #[trigger] all.contains((a, b)) <==> a == i && 0 <= b
            < names.len() && is_last_of_its_name(names, b) && found.contains(names[b]) by {
            if rest.contains((a, b)) {
                assert(all[rest.index_of((a, b))] == (a, b));
            }
            if all.contains((a, b)) && !rest.contains((a, b)) {
                let k = all.index_of((a, b));
                if k < rest.len() {
                    assert(rest[k] == (a, b));
                }
                assert(found[found.len() - 1] == names[b]);
            }
            if front.contains(names[b]) {
                assert(found[front.index_of(names[b])] == names[b]);
            }
            if a == i && 0 <= b < names.len() && is_last_of_its_name(names, b) && found.contains(
                names[b],
            ) {
                let k = found.index_of(names[b]);
                if k < front.len() {
                    assert(front[k] == names[b]);
                } else {
                    assert(found.last() == names[b]);
                    assert(names.contains(names[b]));
                    let j = at->0;
                    assert(j == b) by {
                        if j < b {
                            assert(names[b] != names[j]);
                        } else if b < j {
                            assert(names[j] != names[b]);
                        }
                    }
                    assert(all[rest.len() as int] == (a, b));
                }
            }
        }
    } else {
        assert(all =~= Seq::empty());
    }
}

proof fn lemma_requirement_edges(names: Seq<Seq<char>>, contents: Seq<Seq<char>>, n: int)
    requires
        0 <= n <= names.len(),
    ensures
        forall|a: int, b: int| #[trigger]
            conanfile::requirement_edges(names, contents, n).contains((a, b)) <==> 0 <= a < n && 0
                <= b < names.len() && is_last_of_its_name(names, a) && is_last_of_its_name(names, b)
                && conanfile::required_in(contents[a], names).contains(names[b]),
    decreases n,
{
    let all = conanfile::requirement_edges(names, contents, n);
    if n > 0 {
        lemma_requirement_edges(names, contents, n - 1);
        let rest = conanfile::requirement_edges(names, contents, n - 1);
        let more = conanfile::edges_to(
            names,
            n - 1,
            conanfile::required_in(contents[n - 1], names),
        );
        lemma_edges_to(names, n - 1, conanfile::required_in(contents[n - 1], names));
        lemma_last_named(names, names[n - 1]);
        assert(names.contains(names[n - 1]));
        let j = conanfile::last_named(names, names[n - 1])->0;
        assert(conanfile::represents(names, n - 1) <==> is_last_of_its_name(names, n - 1)) by {
            if is_last_of_its_name(names, n - 1) {
                if n - 1 < j {
                    assert(names[j] != names[n - 1]);
                } else if j < n - 1 {
                    assert(names[n - 1] != names[j]);
                }
            }
        }
        assert forall|a: int, b: int| #[trigger] all.contains((a, b)) <==> 0 <= a < n && 0 <= b
            < names.len() && is_last_of_its_name(names, a) && is_last_of_its_name(names, b)
            && conanfile::required_in(contents[a], names).contains(names[b]) by {
            if rest.contains((a, b)) {
                assert(all[rest.index_of((a, b))] == (a, b));
            }
            if conanfile::represents(names, n - 1) {
                if more.contains((a, b)) {
                    assert(all[rest.len() + more.index_of((a, b))] == (a, b));
                }
                if all.contains((a, b)) {
                    let k = all.index_of((a, b));
                    if k < rest.len() {
                        assert(rest[k] == (a, b));
                    } else {
                        assert(more[k - rest.len()] == (a, b));
                    }
                }
            }
        }
    } else {
        assert(all =~= Seq::empty());
    }
}

/// The graph of requirements leads from a package to another exactly where the recipe of the one
/// requires the other. (Where a name is there several times, its last node stands for it.)
pub proof fn law_graph_shows_what_recipes_require(
    names: &Vec<String>,
    contents: &Vec<String>,
    g: DiGraph<String, ()>,
    a: int,
    b: int,
)
    requires
        names@.len() == contents@.len(),
        call_ensures(
            conanfile::build_graph_from_contents,
            (names, contents),
            Ok::<DiGraph<String, ()>, ConanfileError>(g),
        ),
    ensures
        package_graph::graph_names(g) == text::texts(names@),
        package_graph::graph_edges(g).contains((a, b)) <==> {
            let n = text::texts(names@);
            &&& 0 <= a < n.len()
            &&& 0 <= b < n.len()
            &&& is_last_of_its_name(n, a)
            &&& is_last_of_its_name(n, b)
            &&& conanfile::pattern_compiles(n[b], usize::BITS)
            &&& is_mentioned(contents@[a]@, n[b])
        },
{
    let n = text::texts(names@);
    let c = text::texts(contents@);
    lemma_requirement_edges(n, c, n.len() as int);
    if 0 <= a < n.len() && 0 <= b < n.len() {
        lemma_required_in(c[a], n);
        let keep = |name: Seq<char>|
            conanfile::pattern_compiles(name, usize::BITS) && is_mentioned(c[a], name);
        text_laws::lemma_filtered(n, keep, n[b]);
        assert(n.contains(n[b]));
        assert(c[a] == contents@[a]@);
    }
}

/// The package lies between the executable and one under debug, or the executable: the one
/// requires it, directly or not, and it requires the other, directly or not.
pub open spec fn is_between(
    names: Seq<Seq<char>>,
    edges: Seq<(int, int)>,
    executable: Seq<char>,
    debug: Seq<Seq<char>>,
    i: int,
) -> bool {
    exists|s: int, t: int|
        0 <= s < names.len() && 0 <= t < names.len() && names[s] == executable && (names[t]
            == executable || debug.contains(names[t])) && #[trigger] package_graph::reaches(
            edges,
            s,
            i,
        ) && #[trigger] package_graph::reaches(edges, i, t)
}

proof fn lemma_first_is(names: Seq<Seq<char>>, i: int)
    requires
        names.no_duplicates(),
        0 <= i < names.len(),
    ensures
        conanfile::first_named(names, names[i]) == Some(i),
{
    conanfile::lemma_first_named(names, names[i]);
}

proof fn lemma_needed(
    names: Seq<Seq<char>>,
    edges: Seq<(int, int)>,
    executable: Seq<char>,
    debug: Seq<Seq<char>>,
    i: int,
)
    requires
        names.no_duplicates(),
        0 <= i < names.len(),
    ensures
        conanfile::needed(
            names,
            edges,
            executable,
            conanfile::with_executable(debug, executable),
        )[i] <==> is_between(names, edges, executable, debug, i),
{
    let wanted = conanfile::with_executable(debug, executable);
    let yes = conanfile::needed(names, edges, executable, wanted)[i];
    if yes {
        conanfile::lemma_first_named(names, executable);
        let s = conanfile::first_named(names, executable)->0;
        let k = choose|k: int|
            0 <= k < wanted.len() && conanfile::leads_to(names, edges, i, #[trigger] wanted[k]);
        conanfile::lemma_first_named(names, wanted[k]);
        let t = conanfile::first_named(names, wanted[k])->0;
        if names[t] != executable {
            assert(debug[k] == wanted[k]);
            assert(debug.contains(names[t]));
        }
        assert(package_graph::reaches(edges, s, i) && package_graph::reaches(edges, i, t));
    }
    if is_between(names, edges, executable, debug, i) {
        let (s, t) = choose|s: int, t: int|
            0 <= s < names.len() && 0 <= t < names.len() && names[s] == executable && (names[t]
                == executable || debug.contains(names[t])) && #[trigger] package_graph::reaches(
                edges,
                s,
                i,
            ) && #[trigger] package_graph::reaches(edges, i, t);
        lemma_first_is(names, s);
        lemma_first_is(names, t);
        assert(wanted.contains(names[t])) by {
            if debug.contains(names[t]) {
                assert(wanted[debug.index_of(names[t])] == names[t]);
            } else if !debug.contains(executable) {
                assert(wanted[debug.len() as int] == executable);
            }
        }
        let k = wanted.index_of(names[t]);
        assert(conanfile::leads_to(names, edges, i, wanted[k]));
    }
}

proof fn lemma_kept_apart(names: Seq<Seq<char>>, keep: Seq<bool>, n: int)
    requires
        names.no_duplicates(),
        keep.len() == names.len(),
        0 <= n <= names.len(),
    ensures
        package_graph::kept_names(names, keep, n).no_duplicates(),
        forall|i: int|
            0 <= i < names.len() ==> (#[trigger] package_graph::kept_names(
                names,
                keep,
                n,
            ).contains(names[i]) <==> i < n && keep[i]),
    decreases n,
{
    let all = package_graph::kept_names(names, keep, n);
    if n > 0 {
        lemma_kept_apart(names, keep, n - 1);
        let rest = package_graph::kept_names(names, keep, n - 1);
        assert(!rest.contains(names[n - 1]));
        assert forall|i: int| 0 <= i < names.len() implies (#[trigger] all.contains(names[i]) <==> i
            < n && keep[i]) by {
            if rest.contains(names[i]) {
                assert(all[rest.index_of(names[i])] == names[i]);
            }
            if all.contains(names[i]) && !rest.contains(names[i]) {
                let k = all.index_of(names[i]);
                if k < rest.len() {
                    assert(rest[k] == names[i]);
                }
                assert(names[i] == names[n - 1]);
            }
            if i == n - 1 && keep[i] {
                assert(all[rest.len() as int] == names[i]);
            }
        }
        assert forall|a: int, b: int|
            0 <= a < all.len() && 0 <= b < all.len() && a != b implies all[a] != all[b] by {
            if a < rest.len() {
                assert(rest.contains(rest[a]));
            }
            if b < rest.len() {
                assert(rest.contains(rest[b]));
            }
        }
    } else {
        assert(all =~= Seq::empty());
    }
}

proof fn lemma_sorted(
    names: Seq<Seq<char>>,
    edges: Seq<(int, int)>,
    executable: Seq<char>,
    debug: Seq<Seq<char>>,
    info: DependencyTopologicalInfo,
)
    requires
        names.no_duplicates(),
        package_graph::edges_inside(edges, names.len()),
        conanfile::is_build_order(names, edges, executable, debug, info),
    ensures
        ({
            let kept = conanfile::needed_names(names, edges, executable, debug);
            let sorted = text::texts(info.sorted_names@);
            &&& sorted.no_duplicates()
            &&& kept.no_duplicates()
            &&& forall|x: Seq<char>| #[trigger] sorted.contains(x) <==> kept.contains(x)
        }),
{
    let kept = conanfile::needed_names(names, edges, executable, debug);
    let links = conanfile::needed_edges(names, edges, executable, debug);
    let sorted = text::texts(info.sorted_names@);
    let keep = conanfile::needed(
        names,
        edges,
        executable,
        conanfile::with_executable(debug, executable),
    );
    let order = choose|order: Seq<int>| #[trigger]
        conanfile::is_sorted_by(order, kept, links, text::texts(info.sorted_names@));
    lemma_kept_apart(names, keep, names.len() as int);
    let n = order.len() as int;
    assert(sorted.len() == n);
    assert forall|i: int, j: int| 0 <= i < n && 0 <= j < n && i != j implies sorted[i]
        != sorted[j] by {
        let a = order[n - 1 - i];
        let b = order[n - 1 - j];
        assert(a != b) by {
            if i < j {
                assert(order[n - 1 - j] != order[n - 1 - i]);
            } else {
                assert(order[n - 1 - i] != order[n - 1 - j]);
            }
        }
        assert(kept[a] != kept[b]);
    }
    assert forall|x: Seq<char>| #[trigger] sorted.contains(x) <==> kept.contains(x) by {
        if sorted.contains(x) {
            let i = sorted.index_of(x);
            assert(kept[order[n - 1 - i]] == x);
        }
        if kept.contains(x) {
            let a = kept.index_of(x);
            assert(order.contains(a));
            let p = order.index_of(a);
            assert(sorted[n - 1 - p] == x);
        }
    }
}

proof fn lemma_still_present(debug: Seq<Seq<char>>, names: Seq<Seq<char>>)
    ensures
        conanfile::still_present(debug, names) == debug.filter(
            |d: Seq<char>| names.contains(d),
        ),
    decreases debug.len(),
{
    reveal(Seq::filter);
    if debug.len() > 0 {
        lemma_still_present(debug.drop_last(), names);
    }
}

/// The packages that are built are exactly those between the executable and one under debug, each
/// once and after every package that it requires; and those of them under debug are so, with the
/// executable.
pub proof fn law_needed_packages_are_built_in_order(
    executable: &str,
    g: &DiGraph<String, ()>,
    debug: &Vec<String>,
    info: DependencyTopologicalInfo,
)
    requires
        call_ensures(
            conanfile::sort_needed_packages,
            (executable, g, debug),
            Ok::<DependencyTopologicalInfo, ConanfileError>(info),
        ),
        package_graph::graph_names(*g).no_duplicates(),
        package_graph::edges_inside(
            package_graph::graph_edges(*g),
            package_graph::graph_names(*g).len(),
        ),
    ensures
        ({
            let names = package_graph::graph_names(*g);
            let edges = package_graph::graph_edges(*g);
            let sorted = text::texts(info.sorted_names@);
            &&& sorted.no_duplicates()
            &&& forall|x: Seq<char>| #[trigger]
                sorted.contains(x) <==> exists|i: int|
                    0 <= i < names.len() && #[trigger] names[i] == x && is_between(
                        names,
                        edges,
                        executable@,
                        text::texts(debug@),
                        i,
                    )
            &&& forall|a: int, b: int, i: int, j: int|
                edges.contains((a, b)) && 0 <= i < sorted.len() && 0 <= j < sorted.len()
                    && #[trigger] sorted[i] == #[trigger] names[a] && #[trigger] sorted[j]
                    == #[trigger] names[b] ==> j < i
            &&& text::texts(info.need_debug_pkgs@) == (if text::texts(debug@).contains(
                executable@,
            ) {
                text::texts(debug@)
            } else {
                text::texts(debug@).push(executable@)
            }).filter(|d: Seq<char>| sorted.contains(d))
        }),
{
    let names = package_graph::graph_names(*g);
    let edges = package_graph::graph_edges(*g);
    let wanted = text::texts(debug@);
    let sorted = text::texts(info.sorted_names@);
    let all = conanfile::with_executable(wanted, executable@);
    let keep = conanfile::needed(names, edges, executable@, all);
    let kept = conanfile::needed_names(names, edges, executable@, wanted);
    let links = conanfile::needed_edges(names, edges, executable@, wanted);
    lemma_sorted(names, edges, executable@, wanted, info);
    lemma_kept_apart(names, keep, names.len() as int);
    assert forall|x: Seq<char>| #[trigger] sorted.contains(x) <==> exists|i: int|
        0 <= i < names.len() && #[trigger] names[i] == x && is_between(
            names,
            edges,
            executable@,
            wanted,
            i,
        ) by {
        if sorted.contains(x) {
            assert(kept.contains(x));
            let k = kept.index_of(x);
            let i = package_graph::lemma_kept_origin(names, keep, k, names.len() as int);
            package_graph::lemma_kept_index(names, keep, i, names.len() as int);
            assert(names[i] == x);
            lemma_needed(names, edges, executable@, wanted, i);
        }
        if exists|i: int|
            0 <= i < names.len() && #[trigger] names[i] == x && is_between(
                names,
                edges,
                executable@,
                wanted,
                i,
            ) {
            let i = choose|i: int|
                0 <= i < names.len() && #[trigger] names[i] == x && is_between(
                    names,
                    edges,
                    executable@,
                    wanted,
                    i,
                );
            lemma_needed(names, edges, executable@, wanted, i);
            assert(kept.contains(names[i]));
        }
    }
    assert forall|a: int, b: int, i: int, j: int|
        edges.contains((a, b)) && 0 <= i < sorted.len() && 0 <= j < sorted.len()
            && #[trigger] sorted[i] == #[trigger] names[a] && #[trigger] sorted[j]
            == #[trigger] names[b] implies j < i by {
        let e = edges.index_of((a, b));
        assert(0 <= edges[e].0 < names.len() && 0 <= edges[e].1 < names.len());
        assert(sorted.contains(sorted[i]) && sorted.contains(sorted[j]));
        assert(kept.contains(names[a]) && kept.contains(names[b]));
        assert(keep[a] && keep[b]);
        package_graph::lemma_kept_edge(edges, keep, a, b);
        package_graph::lemma_kept_index(names, keep, a, names.len() as int);
        package_graph::lemma_kept_index(names, keep, b, names.len() as int);
        let x = package_graph::kept_before(keep, a);
        let y = package_graph::kept_before(keep, b);
        let order = choose|order: Seq<int>| #[trigger]
            conanfile::is_sorted_by(order, kept, links, text::texts(info.sorted_names@));
        let n = order.len() as int;
        assert(kept[order[n - 1 - i]] == kept[x]);
        assert(kept[order[n - 1 - j]] == kept[y]);
        assert(order[n - 1 - i] == x && order[n - 1 - j] == y);
        assert(links.contains((order[n - 1 - i], order[n - 1 - j])));
    }
    lemma_still_present(all, kept);
    let one = |d: Seq<char>| kept.contains(d);
    let other = |d: Seq<char>| sorted.contains(d);
    text_laws::lemma_same_filter(all, one, other);
}

/// What a package requires, directly or not, is listed: every such package but itself.
pub proof fn law_requirements_are_listed(
    g: &DiGraph<String, ()>,
    name: &str,
    r: Option<Vec<String>>,
)
    requires
        call_ensures(conanfile::requirements, (g, name), r),
        package_graph::graph_names(*g).no_duplicates(),
    ensures
        r is Some <==> package_graph::graph_names(*g).contains(name@),
        r matches Some(list) ==> forall|i: int, s: int|
            0 <= i < package_graph::graph_names(*g).len() && 0 <= s < package_graph::graph_names(
                *g,
            ).len() && package_graph::graph_names(*g)[s] == name@ ==> (
            #[trigger] text::texts(list@).contains(package_graph::graph_names(*g)[i]) <==> i != s
                && #[trigger] package_graph::reaches(package_graph::graph_edges(*g), s, i)),
{
    let names = package_graph::graph_names(*g);
    let edges = package_graph::graph_edges(*g);
    conanfile::lemma_first_named(names, name@);
    if let Some(s) = conanfile::first_named(names, name@) {
        lemma_requirements_of(names, edges, s, names.len() as int);
    }
}

proof fn lemma_requirements_of(names: Seq<Seq<char>>, edges: Seq<(int, int)>, s: int, n: int)
    requires
        names.no_duplicates(),
        0 <= n <= names.len(),
    ensures
        forall|i: int|
            0 <= i < names.len() ==> (#[trigger] conanfile::requirements_of(
                names,
                edges,
                s,
                n,
            ).contains(names[i]) <==> i < n && i != s && package_graph::reaches(edges, s, i)),
    decreases n,
{
    let all = conanfile::requirements_of(names, edges, s, n);
    if n > 0 {
        lemma_requirements_of(names, edges, s, n - 1);
        let rest = conanfile::requirements_of(names, edges, s, n - 1);
        assert forall|i: int| 0 <= i < names.len() implies (#[trigger] all.contains(names[i]) <==> i
            < n && i != s && package_graph::reaches(edges, s, i)) by {
            if rest.contains(names[i]) {
                assert(all[rest.index_of(names[i])] == names[i]);
            }
            if all.contains(names[i]) && !rest.contains(names[i]) {
                let k = all.index_of(names[i]);
                if k < rest.len() {
                    assert(rest[k] == names[i]);
                }
                assert(names[i] == names[n - 1]);
            }
            if i == n - 1 && i != s && package_graph::reaches(edges, s, i) {
                assert(all[rest.len() as int] == names[i]);
            }
        }
    } else {
        assert(all =~= Seq::empty());
    }
}

proof fn lemma_targets_from(edges: Seq<(int, int)>, a: int)
    ensures
        forall|b: int| #[trigger]
            package_graph::targets_from(edges, a).contains(b) <==> edges.contains((a, b)),
    decreases edges.len(),
{
    let all = package_graph::targets_from(edges, a);
    if edges.len() > 0 {
        let front = edges.drop_last();
        lemma_targets_from(front, a);
        let rest = package_graph::targets_from(front, a);
        assert forall|b: int| #[trigger] all.contains(b) <==> edges.contains((a, b)) by {
            if edges.contains((a, b)) {
                let k = edges.index_of((a, b));
                if k < front.len() {
                    assert(front[k] == (a, b));
                    assert(rest.contains(b));
                    let m = rest.index_of(b);
                    if edges.last().0 == a {
                        assert(all[m + 1] == b);
                    }
                } else {
                    assert(all[0] == b);
                }
            }
            if all.contains(b) {
                let m = all.index_of(b);
                if edges.last().0 == a && m == 0 {
                    assert(edges[edges.len() - 1] == (a, b));
                } else {
                    let q = if edges.last().0 == a {
                        m - 1
                    } else {
                        m
                    };
                    assert(rest[q] == b);
                    assert(rest.contains(b));
                    assert(front.contains((a, b)));
                    assert(edges[front.index_of((a, b))] == (a, b));
                }
            }
        }
    } else {
        assert(all =~= Seq::empty());
    }
}

/// Graphs of different packages that are found equal have the same packages, and a package of the
/// one requires another exactly where it does so in the other.
pub proof fn law_equal_graphs_show_the_same(
    one: &DiGraph<String, ()>,
    other: &DiGraph<String, ()>,
    i: int,
    k: int,
    j: int,
    m: int,
)
    requires
        call_ensures(conanfile::check_graph_equal, (one, other), true),
        package_graph::graph_names(*one).no_duplicates(),
        package_graph::graph_names(*other).no_duplicates(),
        package_graph::edges_inside(
            package_graph::graph_edges(*one),
            package_graph::graph_names(*one).len(),
        ),
        package_graph::edges_inside(
            package_graph::graph_edges(*other),
            package_graph::graph_names(*other).len(),
        ),
        0 <= i < package_graph::graph_names(*one).len(),
        0 <= k < package_graph::graph_names(*one).len(),
        0 <= j < package_graph::graph_names(*other).len(),
        0 <= m < package_graph::graph_names(*other).len(),
        package_graph::graph_names(*one)[i] == package_graph::graph_names(*other)[j],
        package_graph::graph_names(*one)[k] == package_graph::graph_names(*other)[m],
    ensures
        package_graph::graph_names(*one).len() == package_graph::graph_names(*other).len(),
        package_graph::graph_names(*other).contains(package_graph::graph_names(*one)[i]),
        package_graph::graph_edges(*one).contains((i, k)) <==> package_graph::graph_edges(
            *other,
        ).contains((j, m)),
{
    broadcast use vstd::seq_lib::group_to_multiset_ensures;

    let n1 = package_graph::graph_names(*one);
    let e1 = package_graph::graph_edges(*one);
    let n2 = package_graph::graph_names(*other);
    let e2 = package_graph::graph_edges(*other);
    assert(conanfile::node_agrees(n1, e1, n2, e2, i));
    lemma_last_named(n2, n1[i]);
    assert(n2.contains(n1[i]));
    let q = conanfile::last_named(n2, n1[i])->0;
    assert(q == j);
    let a = conanfile::target_names(n1, e1, i);
    let b = conanfile::target_names(n2, e2, j);
    assert(a.to_multiset() == b.to_multiset());
    lemma_targets_from(e1, i);
    lemma_targets_from(e2, j);
    let t1 = package_graph::targets_from(e1, i);
    let t2 = package_graph::targets_from(e2, j);
    if e1.contains((i, k)) {
        assert(t1.contains(k));
        assert(a[t1.index_of(k)] == n1[k]);
        assert(a.contains(n1[k]));
        assert(b.to_multiset().count(n1[k]) > 0);
        assert(b.contains(n1[k]));
        let p = b.index_of(n1[k]);
        assert(n2[t2[p]] == n2[m]);
        assert(t2.contains(t2[p]));
        let e = e2.index_of((j, t2[p]));
        assert(0 <= e2[e].1 < n2.len());
        assert(t2[p] == m);
    }
    if e2.contains((j, m)) {
        assert(t2.contains(m));
        assert(b[t2.index_of(m)] == n2[m]);
        assert(b.contains(n2[m]));
        assert(a.to_multiset().count(n2[m]) > 0);
        assert(a.contains(n2[m]));
        let p = a.index_of(n2[m]);
        assert(n1[t1[p]] == n1[k]);
        assert(t1.contains(t1[p]));
        let e = e1.index_of((i, t1[p]));
        assert(0 <= e1[e].1 < n1.len());
        assert(t1[p] == k);
    }
}

/// A graph of different packages is equal to itself.
pub proof fn law_graph_equals_itself(g: &DiGraph<String, ()>, r: bool)
    requires
        call_ensures(conanfile::check_graph_equal, (g, g), r),
        package_graph::graph_names(*g).no_duplicates(),
    ensures
        r,
{
    let names = package_graph::graph_names(*g);
    let edges = package_graph::graph_edges(*g);
    assert forall|i: int| 0 <= i < names.len() implies conanfile::node_agrees(
        names,
        edges,
        names,
        edges,
        i,
    ) by {
        lemma_last_named(names, names[i]);
        assert(names.contains(names[i]));
    }
}

proof fn lemma_unquoted_run(name: Seq<char>, quote: char, after: Seq<char>)
    requires
        quote == '"' || quote == '\'',
        text_laws::lacks(name, '"') && text_laws::lacks(name, '\''),
    ensures
        conanfile::unquoted_run(name + seq![quote] + after) == name.len(),
    decreases name.len(),
{
    let all = name + seq![quote] + after;
    if name.len() > 0 {
        let rest = name.skip(1);
        assert(all.skip(1) =~= rest + seq![quote] + after);
        assert(all[0] == name[0]);
        assert forall|i: int| 0 <= i < rest.len() implies #[trigger] rest[i] != '"' && rest[i]
            != '\'' by {
            assert(rest[i] == name[i + 1]);
        }
        lemma_unquoted_run(rest, quote, after);
    }
}

/// The declaration of a name, with white space between its parts.
pub open spec fn declaration(
    b: Seq<char>,
    c: Seq<char>,
    quote: char,
    name: Seq<char>,
    closing: char,
    after: Seq<char>,
) -> Seq<char> {
    "name"@ + (b + (seq!['='] + (c + (seq![quote] + (name + seq![closing] + after)))))
}

proof fn lemma_name_value(
    s: Seq<char>,
    b: Seq<char>,
    c: Seq<char>,
    quote: char,
    name: Seq<char>,
    closing: char,
    after: Seq<char>,
)
    requires
        text::trim_start_of(s) == declaration(b, c, quote, name, closing, after),
        text_laws::is_blank(b) && text_laws::is_blank(c),
        quote == '"' || quote == '\'',
        closing == '"' || closing == '\'',
        name.len() > 0,
        text_laws::lacks(name, '"') && text_laws::lacks(name, '\''),
    ensures
        conanfile::name_value(s) == Some(name),
{
    reveal_strlit("name");
    let x = declaration(b, c, quote, name, closing, after);
    let d = name + seq![closing] + after;
    let quoted = seq![quote] + d;
    let valued = seq!['='] + (c + quoted);
    assert(!text::is_space('=') && !text::is_space('"') && !text::is_space('\''));
    assert(x.skip(4) =~= b + valued);
    assert(x.take(4) =~= seq!['n', 'a', 'm', 'e']);
    lemma_skip_blank(b, valued);
    assert(valued.skip(1) =~= c + quoted);
    lemma_skip_blank(c, quoted);
    assert(quoted.skip(1) =~= d);
    lemma_unquoted_run(name, closing, after);
    assert(d.take(name.len() as int) =~= name);
}

proof fn lemma_skip_blank(blank: Seq<char>, s: Seq<char>)
    requires
        text_laws::is_blank(blank),
        s.len() > 0,
        !text::is_space(s[0]),
    ensures
        text::trim_start_of(blank + s) == s,
{
    let all = blank + s;
    let k = text_laws::lemma_trim_start(all);
    assert(all[blank.len() as int] == s[0]);
    if k < blank.len() {
        assert(all[k] == blank[k]);
    } else if k > blank.len() {
        assert(all.take(k)[blank.len() as int] == s[0]);
    }
    assert(all.skip(k) =~= s);
}

proof fn lemma_declared_name(
    before: Seq<char>,
    a: Seq<char>,
    b: Seq<char>,
    c: Seq<char>,
    quote: char,
    name: Seq<char>,
    closing: char,
    after: Seq<char>,
    p: int,
)
    requires
        before.len() > 0 ==> before.last() == '\n',
        !text::contains_text(before, "name"@),
        text_laws::is_blank(a) && text_laws::is_blank(b) && text_laws::is_blank(c),
        quote == '"' || quote == '\'',
        closing == '"' || closing == '\'',
        name.len() > 0,
        text_laws::lacks(name, '"') && text_laws::lacks(name, '\''),
        0 <= p <= before.len(),
    ensures
        conanfile::declared_name(
            before + (a + declaration(b, c, quote, name, closing, after)),
            p,
        ) == Some(name),
    decreases before.len() - p,
{
    reveal_strlit("name");
    let x = declaration(b, c, quote, name, closing, after);
    let n = before.len() as int;
    let s = before + (a + x);
    assert(x[0] == 'n');
    assert(!text::is_space('n'));
    let here = s.skip(p);
    if p == n {
        assert(here =~= a + x);
        lemma_skip_blank(a, x);
        lemma_name_value(here, b, c, quote, name, closing, after);
        assert(p == 0 || s[p - 1] == before.last());
    } else {
        lemma_declared_name(before, a, b, c, quote, name, closing, after, p + 1);
        if (p == 0 || s[p - 1] == '\n') && conanfile::name_value(here) is Some {
            let k = text_laws::lemma_trim_start(here);
            let m = p + k;
            let t = text::trim_start_of(here);
            assert(text::begins_with(t, seq!['n', 'a', 'm', 'e']));
            assert(t =~= s.skip(m));
            assert forall|i: int| 0 <= i < 4 implies #[trigger] s[m + i] == seq![
                'n',
                'a',
                'm',
                'e',
            ][i] by {
                assert(t.take(4)[i] == s[m + i]);
            }
            if m + 4 <= n {
                assert(before.subrange(m, m + 4) =~= "name"@);
                assert(text::occurs_at(before, "name"@, m));
            } else if m < n {
                assert(s[m + (n - 1 - m)] == before.last());
            } else {
                let at = n + a.len();
                assert(s[at] == x[0]);
                if m < at {
                    assert(s[m] == a[m - n]);
                    assert(here[k] == s[m]);
                } else if m > at {
                    assert(here.take(k)[at - p] == s[at]);
                }
                assert(s.skip(m) =~= x);
                lemma_name_value(here, b, c, quote, name, closing, after);
            }
        }
    }
}

/// The first declaration of a name that begins a line is read: the text between quotation marks
/// behind `name` and an equals sign, with any white space between and before them.
pub proof fn law_declared_name_is_read(
    content: &str,
    r: Result<String, ConanfileError>,
    before: Seq<char>,
    a: Seq<char>,
    b: Seq<char>,
    c: Seq<char>,
    quote: char,
    name: Seq<char>,
    closing: char,
    after: Seq<char>,
)
    requires
        call_ensures(conanfile::parse_package_name_from_content, (content,), r),
        content@ == before + (a + declaration(b, c, quote, name, closing, after)),
        before.len() > 0 ==> before.last() == '\n',
        !text::contains_text(before, "name"@),
        text_laws::is_blank(a) && text_laws::is_blank(b) && text_laws::is_blank(c),
        quote == '"' || quote == '\'',
        closing == '"' || closing == '\'',
        name.len() > 0,
        text_laws::lacks(name, '"') && text_laws::lacks(name, '\''),
    ensures
        r matches Ok(read) && read@ == name,
{
    lemma_declared_name(before, a, b, c, quote, name, closing, after, 0);
}

/// A recipe that does not speak of a name declares none.
pub proof fn law_nameless_recipes(content: &str, r: Result<String, ConanfileError>)
    requires
        call_ensures(conanfile::parse_package_name_from_content, (content,), r),
        !text::contains_text(content@, "name"@),
    ensures
        r matches Err(e) && e is NoPackageName,
{
    lemma_nameless(content@, 0);
}

proof fn lemma_nameless(s: Seq<char>, p: int)
    requires
        0 <= p <= s.len(),
        !text::contains_text(s, "name"@),
    ensures
        conanfile::declared_name(s, p) is None,
    decreases s.len() - p,
{
    reveal_strlit("name");
    if p < s.len() {
        lemma_nameless(s, p + 1);
        let here = s.skip(p);
        if conanfile::name_value(here) is Some {
            let k = text_laws::lemma_trim_start(here);
            let m = p + k;
            assert(here.skip(k) =~= s.skip(m));
            assert(s.subrange(m, m + 4) =~= here.skip(k).take(4));
            assert("name"@ =~= seq!['n', 'a', 'm', 'e']);
            assert(text::occurs_at(s, "name"@, m));
        }
    }
}

proof fn lemma_kept_rises(keep: Seq<bool>, a: int, b: int)
    requires
        0 <= a < b,
        keep[a],
    ensures
        package_graph::kept_before(keep, a) < package_graph::kept_before(keep, b),
    decreases b,
{
    if a < b - 1 {
        lemma_kept_rises(keep, a, b - 1);
    }
}

proof fn lemma_kept_once(keep: Seq<bool>, a: int, b: int)
    requires
        0 <= a,
        0 <= b,
        keep[a],
        keep[b],
        package_graph::kept_before(keep, a) == package_graph::kept_before(keep, b),
    ensures
        a == b,
{
    if a < b {
        lemma_kept_rises(keep, a, b);
    } else if b < a {
        lemma_kept_rises(keep, b, a);
    }
}

proof fn lemma_edge_origin(edges: Seq<(int, int)>, keep: Seq<bool>, p: int, q: int) -> (r: (int, int))
    requires
        package_graph::kept_edges(edges, keep).contains((p, q)),
    ensures
        edges.contains(r),
        keep[r.0],
        keep[r.1],
        package_graph::kept_before(keep, r.0) == p,
        package_graph::kept_before(keep, r.1) == q,
    decreases edges.len(),
{
    let all = package_graph::kept_edges(edges, keep);
    let k = all.index_of((p, q));
    let (a, b) = edges.last();
    let rest = package_graph::kept_edges(edges.drop_last(), keep);
    if keep[a] && keep[b] && k == rest.len() {
        assert(edges[edges.len() - 1] == (a, b));
        (a, b)
    } else {
        assert(rest[k] == (p, q));
        let r = lemma_edge_origin(edges.drop_last(), keep, p, q);
        assert(edges[edges.drop_last().index_of(r)] == r);
        r
    }
}

proof fn lemma_cycle_origin(
    names: Seq<Seq<char>>,
    edges: Seq<(int, int)>,
    keep: Seq<bool>,
    node: int,
)
    requires
        package_graph::edges_inside(edges, names.len()),
        package_graph::on_cycle(package_graph::kept_edges(edges, keep), node),
    ensures
        exists|a: int| package_graph::on_cycle(edges, a),
{
    let links = package_graph::kept_edges(edges, keep);
    let path = choose|path: Seq<int>|
        path.len() > 1 && path[0] == node && path.last() == node
            && #[trigger] package_graph::is_walk(links, path);
    let origin = |p: int|
        choose|a: int| 0 <= a && #[trigger] keep[a] && package_graph::kept_before(keep, a) == p;
    let way = path.map_values(origin);
    assert forall|k: int| 0 <= k < way.len() - 1 implies #[trigger] package_graph::has_step(
        edges,
        way,
        k,
    ) by {
        assert(package_graph::has_step(links, path, k));
        let (a, b) = lemma_edge_origin(edges, keep, path[k], path[k + 1]);
        let e = edges.index_of((a, b));
        assert(0 <= edges[e].0 && 0 <= edges[e].1);
        assert(keep[a] && keep[b]);
        let c = origin(path[k]);
        let d = origin(path[k + 1]);
        lemma_kept_once(keep, a, c);
        lemma_kept_once(keep, b, d);
        assert(way[k] == a && way[k + 1] == b);
    }
    assert(package_graph::is_walk(edges, way));
    assert(way[0] == way.last());
    assert(package_graph::on_cycle(edges, way[0]));
}

/// Where no package requires itself, directly or not, the needed packages can be sorted.
pub proof fn law_requirements_without_circles_can_be_sorted(
    executable: &str,
    g: &DiGraph<String, ()>,
    debug: &Vec<String>,
    r: Result<DependencyTopologicalInfo, ConanfileError>,
)
    requires
        call_ensures(conanfile::sort_needed_packages, (executable, g, debug), r),
        package_graph::edges_inside(
            package_graph::graph_edges(*g),
            package_graph::graph_names(*g).len(),
        ),
        forall|a: int| !#[trigger] package_graph::on_cycle(package_graph::graph_edges(*g), a),
    ensures
        r is Ok,
{
    if let Err(ConanfileError::Cycle(node)) = r {
        lemma_cycle_origin(
            package_graph::graph_names(*g),
            package_graph::graph_edges(*g),
            conanfile::needed(
                package_graph::graph_names(*g),
                package_graph::graph_edges(*g),
                executable@,
                conanfile::with_executable(text::texts(debug@), executable@),
            ),
            node as int,
        );
    }
}

/// The graph of the needed packages holds those that are built, and leads from one to another
/// exactly where the graph of all packages does.
pub proof fn law_graph_of_needed_packages(
    executable: &str,
    g: &DiGraph<String, ()>,
    debug: &Vec<String>,
    info: DependencyTopologicalInfo,
    a: int,
    b: int,
)
    requires
        call_ensures(
            conanfile::sort_needed_packages,
            (executable, g, debug),
            Ok::<DependencyTopologicalInfo, ConanfileError>(info),
        ),
        package_graph::graph_names(*g).no_duplicates(),
        package_graph::edges_inside(
            package_graph::graph_edges(*g),
            package_graph::graph_names(*g).len(),
        ),
    ensures
        ({
            let names = package_graph::graph_names(*g);
            let edges = package_graph::graph_edges(*g);
            let kept = package_graph::graph_names(info.graph);
            let links = package_graph::graph_edges(info.graph);
            let wanted = text::texts(debug@);
            &&& forall|x: Seq<char>| #[trigger]
                kept.contains(x) <==> exists|i: int|
                    0 <= i < names.len() && #[trigger] names[i] == x && is_between(
                        names,
                        edges,
                        executable@,
                        wanted,
                        i,
                    )
            &&& 0 <= a < kept.len() && 0 <= b < kept.len() ==> (links.contains((a, b))
                <==> exists|i: int, j: int|
                names[i] == kept[a] && names[j] == kept[b] && #[trigger] edges.contains((i, j)))
        }),
{
    let names = package_graph::graph_names(*g);
    let edges = package_graph::graph_edges(*g);
    let kept = package_graph::graph_names(info.graph);
    let links = package_graph::graph_edges(info.graph);
    let wanted = text::texts(debug@);
    let n = names.len() as int;
    let keep = conanfile::needed(
        names,
        edges,
        executable@,
        conanfile::with_executable(wanted, executable@),
    );
    assert forall|x: Seq<char>| #[trigger]
        kept.contains(x) <==> exists|i: int|
            0 <= i < names.len() && #[trigger] names[i] == x && is_between(
                names,
                edges,
                executable@,
                wanted,
                i,
            ) by {
        if kept.contains(x) {
            let k = kept.index_of(x);
            let i = package_graph::lemma_kept_origin(names, keep, k, n);
            package_graph::lemma_kept_index(names, keep, i, n);
            lemma_needed(names, edges, executable@, wanted, i);
            assert(names[i] == x);
        }
        if exists|i: int|
            0 <= i < names.len() && #[trigger] names[i] == x && is_between(
                names,
                edges,
                executable@,
                wanted,
                i,
            ) {
            let i = choose|i: int|
                0 <= i < names.len() && #[trigger] names[i] == x && is_between(
                    names,
                    edges,
                    executable@,
                    wanted,
                    i,
                );
            lemma_needed(names, edges, executable@, wanted, i);
            package_graph::lemma_kept_index(names, keep, i, n);
        }
    }
    if 0 <= a < kept.len() && 0 <= b < kept.len() {
        let i = package_graph::lemma_kept_origin(names, keep, a, n);
        let j = package_graph::lemma_kept_origin(names, keep, b, n);
        package_graph::lemma_kept_index(names, keep, i, n);
        package_graph::lemma_kept_index(names, keep, j, n);
        if links.contains((a, b)) {
            let (c, d) = lemma_edge_origin(edges, keep, a, b);
            let e = edges.index_of((c, d));
            assert(0 <= edges[e].0 < n && 0 <= edges[e].1 < n);
            lemma_kept_once(keep, i, c);
            lemma_kept_once(keep, j, d);
            assert(edges.contains((i, j)));
        }
        if exists|i: int, j: int|
            names[i] == kept[a] && names[j] == kept[b] && #[trigger] edges.contains((i, j)) {
            let (c, d) = choose|i: int, j: int|
                names[i] == kept[a] && names[j] == kept[b] && #[trigger] edges.contains((i, j));
            let e = edges.index_of((c, d));
            assert(0 <= edges[e].0 < n && 0 <= edges[e].1 < n);
            assert(c == i && d == j);
            package_graph::lemma_kept_edge(edges, keep, i, j);
        }
    }
}

proof fn lemma_few_edges(names: Seq<Seq<char>>, contents: Seq<Seq<char>>, n: int)
    requires
        0 <= n <= names.len(),
    ensures
        conanfile::requirement_edges(names, contents, n).len() <= n * names.len(),
    decreases n,
{
    if n > 0 {
        lemma_few_edges(names, contents, n - 1);
        let found = conanfile::required_in(contents[n - 1], names);
        lemma_few_required(contents[n - 1], names);
        lemma_few_targets(names, n - 1, found);
        assert((n - 1) * names.len() + names.len() == n * names.len()) by (nonlinear_arith);
    } else {
        assert(n * names.len() == 0) by (nonlinear_arith)
            requires
                n == 0,
        ;
    }
}

proof fn lemma_few_required(content: Seq<char>, names: Seq<Seq<char>>)
    ensures
        conanfile::required_in(content, names).len() <= names.len(),
    decreases names.len(),
{
    if names.len() > 0 {
        lemma_few_required(content, names.drop_last());
    }
}

proof fn lemma_few_targets(names: Seq<Seq<char>>, i: int, found: Seq<Seq<char>>)
    ensures
        conanfile::edges_to(names, i, found).len() <= found.len(),
    decreases found.len(),
{
    if found.len() > 0 {
        lemma_few_targets(names, i, found.drop_last());
    }
}

/// Up to some ten thousands of packages always have a graph.
pub proof fn law_packages_have_a_graph(
    names: &Vec<String>,
    contents: &Vec<String>,
    r: Result<DiGraph<String, ()>, ConanfileError>,
)
    requires
        names@.len() == contents@.len(),
        names@.len() <= 0xffff,
        call_ensures(conanfile::build_graph_from_contents, (names, contents), r),
    ensures
        r is Ok,
{
    let n = text::texts(names@);
    lemma_few_edges(n, text::texts(contents@), n.len() as int);
    assert(n.len() * n.len() <= 0xffff * 0xffff) by (nonlinear_arith)
        requires
            n.len() <= 0xffff,
    ;
}

} // verus!
