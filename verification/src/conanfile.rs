//! Package recipes: the name a recipe declares, the packages it requires, the graph of all
//! requirements and the order in which packages are built.

use crate::error::{Error, FileText};
use crate::package_graph;
use crate::text;
use petgraph::graph::DiGraph;
use vstd::prelude::*;

verus! {

/// Why a recipe or a set of recipes cannot be used.
#[derive(Debug)]
pub enum ConanfileError {
    /// The repository has no recipe.
    Missing,
    /// The recipe cannot be read.
    Unreadable,
    /// The recipe declares no package name.
    NoPackageName,
    /// The content of a recipe was refused.
    Query(Error),
    /// The graph has no room for the packages or their requirements.
    TooManyPackages,
    /// The package with this index requires itself.
    Cycle(usize),
}

/// A quotation mark of either kind.
pub open spec fn is_quote(c: char) -> bool {
    c == '"' || c == '\''
}

/// Length of the run of characters before the first quotation mark.
pub open spec fn unquoted_run(s: Seq<char>) -> int
    decreases s.len(),
{
    if s.len() == 0 || is_quote(s[0]) {
        0
    } else {
        unquoted_run(s.skip(1)) + 1
    }
}

/// The value in `name = "value"` at the start of `s`, with any white space between the parts
/// and before them.
pub open spec fn name_value(s: Seq<char>) -> Option<Seq<char>> {
    let a = text::trim_start_of(s);
    let b = text::trim_start_of(a.skip(4));
    let c = text::trim_start_of(b.skip(1));
    let d = c.skip(1);
    let n = unquoted_run(d);
    if text::begins_with(a, seq!['n', 'a', 'm', 'e']) && b.len() > 0 && b[0] == '=' && c.len() > 0
        && is_quote(c[0]) && 0 < n < d.len() {
        Some(d.take(n))
    } else {
        None
    }
}

/// The value of the first such declaration that begins with a line, from position `p` on.
pub open spec fn declared_name(s: Seq<char>, p: int) -> Option<Seq<char>>
    decreases s.len() - p,
{
    if p >= s.len() {
        None
    } else if (p == 0 || s[p - 1] == '\n') && name_value(s.skip(p)) is Some {
        name_value(s.skip(p))
    } else {
        declared_name(s, p + 1)
    }
}

/// Whether `regex` compiles the pattern that looks for this package name, where pointers have this
/// width; it refuses patterns that take up too much memory.
pub uninterp spec fn pattern_compiles(name: Seq<char>, pointer_bits: u32) -> bool;

/// A quotation mark, the name and a slash stand in the text.
pub open spec fn mentions_package(content: Seq<char>, name: Seq<char>) -> bool {
    exists|i: int|
        0 <= i < content.len() && is_quote(#[trigger] content[i]) && text::occurs_at(
            content,
            name.push('/'),
            i + 1,
        )
}

/// The recipe requires the package.
pub open spec fn requires_package(content: Seq<char>, name: Seq<char>) -> bool {
    pattern_compiles(name, usize::BITS) && mentions_package(content, name)
}

/// The names among `names` that the recipe requires, in their order.
pub open spec fn required_in(content: Seq<char>, names: Seq<Seq<char>>) -> Seq<Seq<char>>
    decreases names.len(),
{
    if names.len() == 0 {
        Seq::empty()
    } else {
        let rest = required_in(content, names.drop_last());
        if requires_package(content, names.last()) {
            rest.push(names.last())
        } else {
            rest
        }
    }
}

/// `regex::Regex::captures` with the pattern `(?m)^\s*name\s*=\s*["']([^"']+)["']`: the first
/// group of the leftmost match.
#[verifier::external_body]
fn search_name(content: &str) -> (r: Option<String>)
    ensures
        text::opt_text(r) == declared_name(content@, 0),
{
    let re = regex::Regex::new(r#"(?m)^\s*name\s*=\s*["']([^"']+)["']"#).ok()?;
    re.captures(content)?.get(1).map(|m| m.as_str().to_string())
}

/// `regex::Regex::is_match` with the pattern made of a quotation mark, the name as
/// `regex::escape` writes it, and a slash; `None` where the pattern does not compile.
#[verifier::external_body]
fn search_package(content: &str, name: &str) -> (r: Option<bool>)
    ensures
        r == (if pattern_compiles(name@, usize::BITS) {
            Some(mentions_package(content@, name@))
        } else {
            None
        }),
{
    let re = regex::Regex::new(&format!(r#"["']{}/"#, regex::escape(name))).ok()?;
    Some(re.is_match(content))
}

/// The package name that a recipe declares.
pub fn parse_package_name_from_content(content: &str) -> (r: Result<String, ConanfileError>)
    ensures
        match r {
            Ok(name) => declared_name(content@, 0) == Some(name@),
            Err(e) => e is NoPackageName && declared_name(content@, 0) is None,
        },
{
    match search_name(content) {
        Some(name) => Ok(name),
        None => Err(ConanfileError::NoPackageName),
    }
}

/// The recipe of a repository, as far as it could be read.
pub fn get_conanfile_content(file: FileText) -> (r: Result<String, ConanfileError>)
    ensures
        match (file, r) {
            (FileText::Text(t), Ok(content)) => content == t,
            (FileText::Missing, Err(e)) => e is Missing,
            (FileText::Unreadable, Err(e)) => e is Unreadable,
            _ => false,
        },
{
    match file {
        FileText::Text(content) => Ok(content),
        FileText::Missing => Err(ConanfileError::Missing),
        FileText::Unreadable => Err(ConanfileError::Unreadable),
    }
}

/// The package name that the recipe of a repository declares.
pub fn parse_package_name_from_repo(file: FileText) -> (r: Result<String, ConanfileError>)
    ensures
        match (file, r) {
            (FileText::Text(t), Ok(name)) => declared_name(t@, 0) == Some(name@),
            (FileText::Text(t), Err(e)) => e is NoPackageName && declared_name(t@, 0) is None,
            (FileText::Missing, Err(e)) => e is Missing,
            (FileText::Unreadable, Err(e)) => e is Unreadable,
            _ => false,
        },
{
    match get_conanfile_content(file) {
        Ok(content) => parse_package_name_from_content(content.as_str()),
        Err(e) => Err(e),
    }
}

/// The names of the list that the recipe requires.
pub fn find_dependence_in_conanfile(content: &str, package_names: &Vec<String>) -> (r: Vec<String>)
    ensures
        text::texts(r@) == required_in(content@, text::texts(package_names@)),
{
    let mut found: Vec<String> = Vec::new();
    for i in 0..package_names.len()
        invariant
            text::texts(found@) == required_in(
                content@,
                text::texts(package_names@).take(i as int),
            ),
    {
        let ghost before = found@;
        let ghost upto = text::texts(package_names@).take(i + 1);
        assert(upto.drop_last() =~= text::texts(package_names@).take(i as int));
        let hit = search_package(content, package_names[i].as_str());
        if let Some(true) = hit {
            found.push(package_names[i].clone());
            assert(text::texts(found@) =~= text::texts(before).push(package_names@[i as int]@));
        }
    }
    assert(text::texts(package_names@).take(package_names@.len() as int) =~= text::texts(
        package_names@,
    ));
    found
}

/// Where the graph of requirements gets its packages and their recipes.
pub trait DependencyQueryInput {
    /// The recipe of a package.
    fn get_conanfile_content_by_conan_name(&self, conan_name: &str) -> (r: Result<String, Error>);

    /// The names of all packages.
    fn get_all_dependencies(&self) -> (r: Vec<String>);
}

/// Index of the last name in `names` that equals `name`.
pub open spec fn last_named(names: Seq<Seq<char>>, name: Seq<char>) -> Option<int>
    decreases names.len(),
{
    if names.len() == 0 {
        None
    } else if names.last() == name {
        Some(names.len() - 1)
    } else {
        last_named(names.drop_last(), name)
    }
}

/// Index of the first name in `names` that equals `name`.
pub open spec fn first_named(names: Seq<Seq<char>>, name: Seq<char>) -> Option<int>
    decreases names.len(),
{
    if names.len() == 0 {
        None
    } else {
        match first_named(names.drop_last(), name) {
            Some(i) => Some(i),
            None => if names.last() == name {
                Some(names.len() - 1)
            } else {
                None
            },
        }
    }
}

/// No later name equals the name at `i`: the package is represented by this node.
pub open spec fn represents(names: Seq<Seq<char>>, i: int) -> bool {
    last_named(names, names[i]) == Some(i)
}

/// The edges from node `i` to the nodes that represent `found`.
pub open spec fn edges_to(names: Seq<Seq<char>>, i: int, found: Seq<Seq<char>>) -> Seq<(int, int)>
    decreases found.len(),
{
    if found.len() == 0 {
        Seq::empty()
    } else {
        let rest = edges_to(names, i, found.drop_last());
        match last_named(names, found.last()) {
            Some(j) => rest.push((i, j)),
            None => rest,
        }
    }
}

/// The edges that leave the first `n` nodes: one from each package to each package that its
/// recipe requires.
pub open spec fn requirement_edges(
    names: Seq<Seq<char>>,
    contents: Seq<Seq<char>>,
    n: int,
) -> Seq<(int, int)>
    decreases n,
{
    if n <= 0 {
        Seq::empty()
    } else {
        let rest = requirement_edges(names, contents, n - 1);
        if represents(names, n - 1) {
            rest + edges_to(names, n - 1, required_in(contents[n - 1], names))
        } else {
            rest
        }
    }
}

proof fn lemma_last_named(names: Seq<Seq<char>>, name: Seq<char>)
    ensures
        match last_named(names, name) {
            Some(i) => 0 <= i < names.len() && names[i] == name,
            None => true,
        },
    decreases names.len(),
{
    if names.len() > 0 {
        lemma_last_named(names.drop_last(), name);
    }
}

pub proof fn lemma_first_named(names: Seq<Seq<char>>, name: Seq<char>)
    ensures
        match first_named(names, name) {
            Some(i) => 0 <= i < names.len() && names[i] == name && (forall|j: int|
                0 <= j < i ==> names[j] != name),
            None => forall|j: int| 0 <= j < names.len() ==> names[j] != name,
        },
    decreases names.len(),
{
    if names.len() > 0 {
        let rest = names.drop_last();
        lemma_first_named(rest, name);
        assert forall|j: int| 0 <= j < rest.len() implies rest[j] == names[j] by {}
    }
}

proof fn lemma_edges_to_grows(names: Seq<Seq<char>>, i: int, found: Seq<Seq<char>>, m: int)
    requires
        0 <= m <= found.len(),
    ensures
        edges_to(names, i, found.take(m)).len() <= edges_to(names, i, found).len(),
    decreases found.len() - m,
{
    if m == found.len() {
        assert(found.take(m) =~= found);
    } else {
        lemma_edges_to_grows(names, i, found, m + 1);
        assert(found.take(m + 1).drop_last() =~= found.take(m));
    }
}

proof fn lemma_requirement_edges_grow(
    names: Seq<Seq<char>>,
    contents: Seq<Seq<char>>,
    k: int,
    n: int,
)
    requires
        0 <= k <= n,
    ensures
        requirement_edges(names, contents, k).len() <= requirement_edges(names, contents, n).len(),
    decreases n - k,
{
    if k < n {
        lemma_requirement_edges_grow(names, contents, k, n - 1);
    }
}

/// Index of the last of the names that equals `name`.
fn find_last(names: &Vec<String>, name: &str) -> (r: Option<usize>)
    ensures
        match r {
            Some(i) => i < names@.len() && last_named(text::texts(names@), name@) == Some(i as int),
            None => last_named(text::texts(names@), name@) is None,
        },
{
    let mut i: usize = names.len();
    assert(text::texts(names@).take(i as int) =~= text::texts(names@));
    while i > 0
        invariant
            i <= names@.len(),
            last_named(text::texts(names@), name@) == last_named(
                text::texts(names@).take(i as int),
                name@,
            ),
        decreases i,
    {
        let ghost upto = text::texts(names@).take(i as int);
        assert(upto.drop_last() =~= text::texts(names@).take(i - 1));
        if text::same_text(names[i - 1].as_str(), name) {
            return Some(i - 1);
        }
        i -= 1;
    }
    None
}

/// The graph of all requirements: a node for each name, and an edge from each package to each
/// package that its recipe requires. Where a name occurs more than once, its last node stands
/// for the package. `contents` holds the recipe of each package.
pub fn build_graph_from_contents(names: &Vec<String>, contents: &Vec<String>) -> (r: Result<
    DiGraph<String, ()>,
    ConanfileError,
>)
    requires
        names@.len() == contents@.len(),
    ensures
        ({
            let n = text::texts(names@);
            let edges = requirement_edges(n, text::texts(contents@), n.len() as int);
            match r {
                Ok(g) => package_graph::graph_names(g) == n && package_graph::graph_edges(g) == edges && n.len()
                    <= u32::MAX && edges.len() <= u32::MAX,
                Err(e) => e is TooManyPackages && (n.len() > u32::MAX || edges.len() > u32::MAX),
            }
        }),
{
    let ghost ns = text::texts(names@);
    let ghost cs = text::texts(contents@);
    let mut g = package_graph::new_graph();
    for i in 0..names.len()
        invariant
            ns == text::texts(names@),
            i <= u32::MAX,
            package_graph::graph_names(g) == ns.take(i as int),
            package_graph::graph_edges(g).len() == 0,
    {
        if i >= u32::MAX as usize {
            return Err(ConanfileError::TooManyPackages);
        }
        package_graph::add_node(&mut g, names[i].clone());
        assert(ns.take(i + 1) =~= ns.take(i as int).push(names@[i as int]@));
    }
    assert(ns.take(ns.len() as int) =~= ns);
    assert(package_graph::graph_edges(g) =~= Seq::empty());
    let mut count: usize = 0;
    for i in 0..names.len()
        invariant
            ns == text::texts(names@),
            cs == text::texts(contents@),
            names@.len() == contents@.len(),
            ns.len() <= u32::MAX,
            package_graph::graph_names(g) == ns,
            package_graph::graph_edges(g) == requirement_edges(ns, cs, i as int),
            count == package_graph::graph_edges(g).len(),
            count <= u32::MAX,
    {
        let own = find_last(names, names[i].as_str());
        let stands = match own {
            Some(k) => k == i,
            None => false,
        };
        assert(stands == represents(ns, i as int));
        if stands {
            let found = find_dependence_in_conanfile(contents[i].as_str(), names);
            let ghost fs = text::texts(found@);
            let ghost before = package_graph::graph_edges(g);
            assert(before + edges_to(ns, i as int, fs.take(0)) =~= before);
            for m in 0..found.len()
                invariant
                    ns == text::texts(names@),
                    cs == text::texts(contents@),
                    fs == text::texts(found@),
                    fs == required_in(cs[i as int], ns),
                    i < ns.len(),
                    represents(ns, i as int),
                    before == requirement_edges(ns, cs, i as int),
                    package_graph::graph_names(g) == ns,
                    package_graph::graph_edges(g) == before + edges_to(ns, i as int, fs.take(m as int)),
                    count == package_graph::graph_edges(g).len(),
                    count <= u32::MAX,
            {
                let ghost upto = fs.take(m + 1);
                assert(upto.drop_last() =~= fs.take(m as int));
                if let Some(j) = find_last(names, found[m].as_str()) {
                    if count >= u32::MAX as usize {
                        proof {
                            lemma_edges_to_grows(ns, i as int, fs, m + 1);
                            lemma_requirement_edges_grow(ns, cs, i + 1, ns.len() as int);
                        }
                        return Err(ConanfileError::TooManyPackages);
                    }
                    package_graph::add_edge(&mut g, i, j);
                    count += 1;
                    assert(before + edges_to(ns, i as int, fs.take(m as int)).push(
                        (i as int, j as int),
                    ) =~= package_graph::graph_edges(g));
                }
            }
            assert(fs.take(fs.len() as int) =~= fs);
        }
    }
    Ok(g)
}

/// What a source answers for a package.
pub open spec fn answers<Q: DependencyQueryInput>(
    source: &Q,
    name: Seq<char>,
    r: Result<String, Error>,
) -> bool {
    exists|n: &str|
        n@ == name && #[trigger] call_ensures(
            Q::get_conanfile_content_by_conan_name,
            (source, n),
            r,
        )
}

/// `contents` are recipes that the source answers for the packages that `names` stands for.
pub open spec fn answered_contents<Q: DependencyQueryInput>(
    source: &Q,
    names: Seq<Seq<char>>,
    contents: Seq<String>,
) -> bool {
    &&& contents.len() == names.len()
    &&& forall|i: int|
        0 <= i < names.len() && represents(names, i) ==> answers(
            source,
            names[i],
            Ok(#[trigger] contents[i]),
        )
}

/// The recipes of all packages; a name that occurs again later is asked for only there, and
/// the first refusal ends the search.
pub fn collect_contents<Q: DependencyQueryInput>(source: &Q, names: &Vec<String>) -> (r: Result<
    Vec<String>,
    Error,
>)
    ensures
        match r {
            Ok(contents) => answered_contents(source, text::texts(names@), contents@),
            Err(e) => exists|i: int|
                0 <= i < names@.len() && represents(text::texts(names@), i) && answers(
                    source,
                    (#[trigger] names@[i])@,
                    Err(e),
                ),
        },
{
    let ghost ns = text::texts(names@);
    let mut contents: Vec<String> = Vec::new();
    for i in 0..names.len()
        invariant
            ns == text::texts(names@),
            contents@.len() == i,
            forall|k: int|
                0 <= k < i && represents(ns, k) ==> answers(
                    source,
                    ns[k],
                    Ok(#[trigger] contents@[k]),
                ),
    {
        let own = find_last(names, names[i].as_str());
        let stands = match own {
            Some(k) => k == i,
            None => false,
        };
        if stands {
            match source.get_conanfile_content_by_conan_name(names[i].as_str()) {
                Ok(content) => {
                    contents.push(content);
                },
                Err(e) => {
                    assert(answers(source, names@[i as int]@, Err(e)));
                    return Err(e);
                },
            }
        } else {
            contents.push(String::new());
        }
    }
    Ok(contents)
}

/// The graph of all requirements of the packages that the source knows.
pub fn build_all_dependency_graph<Q: DependencyQueryInput>(possible_dependencies: &Q) -> (r: Result<
    DiGraph<String, ()>,
    ConanfileError,
>)
    ensures
        exists|names: Vec<String>| #[trigger]
            call_ensures(Q::get_all_dependencies, (possible_dependencies,), names)
                && graph_of_source(possible_dependencies, text::texts(names@), r),
{
    let names = possible_dependencies.get_all_dependencies();
    let r = match collect_contents(possible_dependencies, &names) {
        Ok(contents) => {
            let r = build_graph_from_contents(&names, &contents);
            assert(answered_contents(possible_dependencies, text::texts(names@), contents@));
            r
        },
        Err(e) => Err(ConanfileError::Query(e)),
    };
    proof {
        assert(call_ensures(Q::get_all_dependencies, (possible_dependencies,), names));
        assert(graph_of_source(possible_dependencies, text::texts(names@), r));
    }
    r
}

/// `r` is the graph of the packages `names` with recipes that the source answers, or the
/// refusal of one of them.
pub open spec fn graph_of_source<Q: DependencyQueryInput>(
    source: &Q,
    names: Seq<Seq<char>>,
    r: Result<DiGraph<String, ()>, ConanfileError>,
) -> bool {
    match r {
        Ok(g) => exists|contents: Seq<String>| #[trigger]
            answered_contents(source, names, contents) && package_graph::graph_names(g) == names
                && package_graph::graph_edges(g) == requirement_edges(
                names,
                text::texts(contents),
                names.len() as int,
            ),
        Err(ConanfileError::Query(e)) => exists|i: int|
            0 <= i < names.len() && represents(names, i) && answers(
                source,
                #[trigger] names[i],
                Err(e),
            ),
        Err(ConanfileError::TooManyPackages) => exists|contents: Seq<String>| #[trigger]
            answered_contents(source, names, contents) && (names.len() > u32::MAX
                || requirement_edges(names, text::texts(contents), names.len() as int).len()
                > u32::MAX),
        Err(_) => false,
    }
}

/// The packages needed for a debug session, in the order in which they are built.
pub struct DependencyTopologicalInfo {
    /// The needed packages and the requirements between them.
    pub graph: DiGraph<String, ()>,
    /// The needed packages, each after everything that it requires.
    pub sorted_names: Vec<String>,
    /// The packages under debug that are needed, with the executable.
    pub need_debug_pkgs: Vec<String>,
}

impl Default for DependencyTopologicalInfo {
    fn default() -> (r: Self)
        ensures
            package_graph::graph_names(r.graph) == Seq::<Seq<char>>::empty(),
            package_graph::graph_edges(r.graph) == Seq::<(int, int)>::empty(),
            r.sorted_names@ == Seq::<String>::empty(),
            r.need_debug_pkgs@ == Seq::<String>::empty(),
    {
        DependencyTopologicalInfo {
            graph: package_graph::new_graph(),
            sorted_names: Vec::new(),
            need_debug_pkgs: Vec::new(),
        }
    }
}

/// The packages under debug, with the executable at the end unless it is among them.
pub open spec fn with_executable(debug: Seq<Seq<char>>, executable: Seq<char>) -> Seq<Seq<char>> {
    if debug.contains(executable) {
        debug
    } else {
        debug.push(executable)
    }
}

/// The executable requires package `b`, directly or not.
pub open spec fn led_from(
    names: Seq<Seq<char>>,
    edges: Seq<(int, int)>,
    executable: Seq<char>,
    b: int,
) -> bool {
    match first_named(names, executable) {
        Some(s) => package_graph::reaches(edges, s, b),
        None => false,
    }
}

/// Package `a` requires the package called `name`, directly or not.
pub open spec fn leads_to(
    names: Seq<Seq<char>>,
    edges: Seq<(int, int)>,
    a: int,
    name: Seq<char>,
) -> bool {
    match first_named(names, name) {
        Some(t) => package_graph::reaches(edges, a, t),
        None => false,
    }
}

/// Package `a` requires one of the packages under debug, directly or not.
pub open spec fn leads_to_any(
    names: Seq<Seq<char>>,
    edges: Seq<(int, int)>,
    a: int,
    debug: Seq<Seq<char>>,
) -> bool {
    exists|k: int| 0 <= k < debug.len() && leads_to(names, edges, a, #[trigger] debug[k])
}

/// For each package whether it lies between the executable and a package under debug.
pub open spec fn needed(
    names: Seq<Seq<char>>,
    edges: Seq<(int, int)>,
    executable: Seq<char>,
    debug: Seq<Seq<char>>,
) -> Seq<bool> {
    Seq::new(
        names.len(),
        |i: int| led_from(names, edges, executable, i) && leads_to_any(names, edges, i, debug),
    )
}

/// The names of the nodes in `order`, from its end.
pub open spec fn names_backwards(names: Seq<Seq<char>>, order: Seq<int>) -> Seq<Seq<char>> {
    Seq::new(order.len(), |i: int| names[order[order.len() - 1 - i]])
}

/// The members of `debug` that are among `names`, in their order.
pub open spec fn still_present(debug: Seq<Seq<char>>, names: Seq<Seq<char>>) -> Seq<Seq<char>>
    decreases debug.len(),
{
    if debug.len() == 0 {
        Seq::empty()
    } else {
        let rest = still_present(debug.drop_last(), names);
        if names.contains(debug.last()) {
            rest.push(debug.last())
        } else {
            rest
        }
    }
}

/// The names of the needed packages.
pub open spec fn needed_names(
    names: Seq<Seq<char>>,
    edges: Seq<(int, int)>,
    executable: Seq<char>,
    debug: Seq<Seq<char>>,
) -> Seq<Seq<char>> {
    package_graph::kept_names(
        names,
        needed(names, edges, executable, with_executable(debug, executable)),
        names.len() as int,
    )
}

/// The requirements between the needed packages.
pub open spec fn needed_edges(
    names: Seq<Seq<char>>,
    edges: Seq<(int, int)>,
    executable: Seq<char>,
    debug: Seq<Seq<char>>,
) -> Seq<(int, int)> {
    package_graph::kept_edges(
        edges,
        needed(names, edges, executable, with_executable(debug, executable)),
    )
}

/// The names are those of the nodes from the end of `order`, which holds each node once, and the
/// source of every edge before its target.
pub open spec fn is_sorted_by(
    order: Seq<int>,
    names: Seq<Seq<char>>,
    edges: Seq<(int, int)>,
    sorted: Seq<Seq<char>>,
) -> bool {
    &&& package_graph::is_ordering(order, names.len())
    &&& package_graph::sources_first(order, edges)
    &&& sorted == names_backwards(names, order)
}

/// `info` holds the needed packages of the graph and a build order of them.
pub open spec fn is_build_order(
    names: Seq<Seq<char>>,
    edges: Seq<(int, int)>,
    executable: Seq<char>,
    debug: Seq<Seq<char>>,
    info: DependencyTopologicalInfo,
) -> bool {
    let kept = needed_names(names, edges, executable, debug);
    let links = needed_edges(names, edges, executable, debug);
    &&& package_graph::graph_names(info.graph) == kept
    &&& package_graph::graph_edges(info.graph) == links
    &&& exists|order: Seq<int>| #[trigger]
        is_sorted_by(order, kept, links, text::texts(info.sorted_names@))
    &&& text::texts(info.need_debug_pkgs@) == still_present(
        with_executable(debug, executable),
        kept,
    )
}

/// Index of the first node with the name.
fn find_node(g: &DiGraph<String, ()>, name: &str) -> (r: Option<usize>)
    ensures
        match r {
            Some(i) => i < package_graph::graph_names(*g).len() && first_named(
                package_graph::graph_names(*g),
                name@,
            ) == Some(i as int),
            None => first_named(package_graph::graph_names(*g), name@) is None,
        },
{
    let ghost names = package_graph::graph_names(*g);
    proof {
        lemma_first_named(names, name@);
    }
    let n: usize = package_graph::node_count(g);
    for i in 0..n
        invariant
            names == package_graph::graph_names(*g),
            n == names.len(),
            forall|j: int| 0 <= j < i ==> names[j] != name@,
            match first_named(names, name@) {
                Some(k) => 0 <= k < names.len() && names[k] == name@ && (forall|j: int|
                    0 <= j < k ==> names[j] != name@),
                None => forall|j: int| 0 <= j < names.len() ==> names[j] != name@,
            },
    {
        let found = package_graph::node_name(g, i).unwrap();
        if text::same_text(found.as_str(), name) {
            return Some(i);
        }
    }
    None
}

/// Raises the marks of the listed nodes.
fn mark_all(marks: &mut Vec<bool>, nodes: &Vec<usize>)
    requires
        forall|k: int| 0 <= k < nodes@.len() ==> (#[trigger] nodes@[k]) < old(marks)@.len(),
    ensures
        final(marks)@.len() == old(marks)@.len(),
        forall|b: usize|
            b < old(marks)@.len() ==> (#[trigger] final(marks)@[b as int] == (old(marks)@[b as int]
                || nodes@.contains(b))),
{
    for k in 0..nodes.len()
        invariant
            marks@.len() == old(marks)@.len(),
            forall|j: int| 0 <= j < nodes@.len() ==> (#[trigger] nodes@[j]) < old(marks)@.len(),
            forall|b: usize|
                b < old(marks)@.len() ==> (#[trigger] marks@[b as int] == (old(marks)@[b as int]
                    || nodes@.take(k as int).contains(b))),
    {
        let ghost before = marks@;
        let ghost upto = nodes@.take(k + 1);
        let node = nodes[k];
        marks.set(node, true);
        assert forall|b: usize| b < old(marks)@.len() implies (#[trigger] marks@[b as int] == (old(
            marks,
        )@[b as int] || upto.contains(b))) by {
            assert(before[b as int] == (old(marks)@[b as int] || nodes@.take(k as int).contains(
                b,
            )));
            if nodes@.take(k as int).contains(b) {
                let j = choose|j: int| 0 <= j < k && nodes@.take(k as int)[j] == b;
                assert(upto[j] == b);
            }
            if upto.contains(b) && b != node {
                let j = choose|j: int| 0 <= j < k + 1 && upto[j] == b;
                assert(nodes@.take(k as int)[j] == b);
            }
            if b == node {
                assert(upto[k as int] == b);
            }
        }
    }
    assert(nodes@.take(nodes@.len() as int) =~= nodes@);
}

/// For each package of the graph whether it lies between the executable and a package under
/// debug.
fn needed_marks(executable_name: &str, g: &DiGraph<String, ()>, debug: &Vec<String>) -> (r: Vec<
    bool,
>)
    ensures
        r@ == needed(
            package_graph::graph_names(*g),
            package_graph::graph_edges(*g),
            executable_name@,
            text::texts(debug@),
        ),
{
    let ghost names = package_graph::graph_names(*g);
    let ghost edges = package_graph::graph_edges(*g);
    let n: usize = package_graph::node_count(g);
    let mut forward: Vec<bool> = vec![false; n];
    if let Some(start) = find_node(g, executable_name) {
        let nodes = package_graph::reachable_from(g, start);
        mark_all(&mut forward, &nodes);
    }
    assert forall|b: usize| b < n implies #[trigger] forward@[b as int] == led_from(
        names,
        edges,
        executable_name@,
        b as int,
    ) by {}
    let mut backward: Vec<bool> = vec![false; n];
    for k in 0..debug.len()
        invariant
            names == package_graph::graph_names(*g),
            edges == package_graph::graph_edges(*g),
            n == names.len(),
            backward@.len() == n,
            forall|a: usize|
                a < n ==> (#[trigger] backward@[a as int] == leads_to_any(
                    names,
                    edges,
                    a as int,
                    text::texts(debug@).take(k as int),
                )),
    {
        let ghost before = backward@;
        let ghost seen = text::texts(debug@).take(k as int);
        let ghost upto = text::texts(debug@).take(k + 1);
        let ghost name = debug@[k as int]@;
        let goal = find_node(g, debug[k].as_str());
        if let Some(t) = goal {
            let nodes = package_graph::reaching(g, t);
            mark_all(&mut backward, &nodes);
        }
        assert forall|a: usize| a < n implies (#[trigger] backward@[a as int] == leads_to_any(
            names,
            edges,
            a as int,
            upto,
        )) by {
            assert(before[a as int] == leads_to_any(names, edges, a as int, seen));
            assert(backward@[a as int] == (before[a as int] || leads_to(
                names,
                edges,
                a as int,
                name,
            )));
            if leads_to_any(names, edges, a as int, seen) {
                let j = choose|j: int|
                    0 <= j < seen.len() && leads_to(names, edges, a as int, #[trigger] seen[j]);
                assert(upto[j] == seen[j]);
            }
            if leads_to(names, edges, a as int, name) {
                assert(upto[k as int] == name);
            }
            if leads_to_any(names, edges, a as int, upto) && !leads_to(
                names,
                edges,
                a as int,
                name,
            ) {
                let j = choose|j: int|
                    0 <= j < upto.len() && leads_to(names, edges, a as int, #[trigger] upto[j]);
                assert(seen[j] == upto[j]);
            }
        }
    }
    assert(text::texts(debug@).take(debug@.len() as int) =~= text::texts(debug@));
    let mut keep: Vec<bool> = Vec::new();
    let ghost all = needed(names, edges, executable_name@, text::texts(debug@));
    for i in 0..n
        invariant
            n == names.len(),
            forward@.len() == n,
            backward@.len() == n,
            all == needed(names, edges, executable_name@, text::texts(debug@)),
            forall|b: usize|
                b < n ==> (#[trigger] forward@[b as int] == led_from(
                    names,
                    edges,
                    executable_name@,
                    b as int,
                )),
            forall|a: usize|
                a < n ==> (#[trigger] backward@[a as int] == leads_to_any(
                    names,
                    edges,
                    a as int,
                    text::texts(debug@),
                )),
            keep@ == all.take(i as int),
    {
        keep.push(forward[i] && backward[i]);
        assert(keep@ =~= all.take(i + 1));
    }
    keep
}

/// The names of the graph's nodes.
fn all_names(g: &DiGraph<String, ()>) -> (r: Vec<String>)
    ensures
        text::texts(r@) == package_graph::graph_names(*g),
{
    let mut out: Vec<String> = Vec::new();
    let n: usize = package_graph::node_count(g);
    for i in 0..n
        invariant
            n == package_graph::graph_names(*g).len(),
            text::texts(out@) == package_graph::graph_names(*g).take(i as int),
    {
        let ghost before = out@;
        let name = package_graph::node_name(g, i).unwrap();
        out.push(name);
        assert(text::texts(out@) =~= text::texts(before).push(
            package_graph::graph_names(*g)[i as int],
        ));
    }
    out
}

/// The names of those of the first `n` packages, itself apart, that package `start` requires,
/// directly or not.
pub open spec fn requirements_of(
    names: Seq<Seq<char>>,
    edges: Seq<(int, int)>,
    start: int,
    n: int,
) -> Seq<Seq<char>>
    decreases n,
{
    if n <= 0 {
        Seq::empty()
    } else {
        let rest = requirements_of(names, edges, start, n - 1);
        if n - 1 != start && package_graph::reaches(edges, start, n - 1) {
            rest.push(names[n - 1])
        } else {
            rest
        }
    }
}

/// The names of the packages that a package requires, directly or not; `None` where the graph has
/// no package of this name.
pub fn requirements(g: &DiGraph<String, ()>, name: &str) -> (r: Option<Vec<String>>)
    ensures
        ({
            let names = package_graph::graph_names(*g);
            match first_named(names, name@) {
                Some(start) => r matches Some(list) && text::texts(list@) == requirements_of(
                    names,
                    package_graph::graph_edges(*g),
                    start,
                    names.len() as int,
                ),
                None => r is None,
            }
        }),
{
    let ghost names = package_graph::graph_names(*g);
    let ghost edges = package_graph::graph_edges(*g);
    let start = match find_node(g, name) {
        Some(start) => start,
        None => {
            return None;
        },
    };
    let n: usize = package_graph::node_count(g);
    let mut reached: Vec<bool> = vec![false; n];
    let nodes = package_graph::reachable_from(g, start);
    mark_all(&mut reached, &nodes);
    assert forall|b: usize| b < n implies #[trigger] reached@[b as int] == package_graph::reaches(
        edges,
        start as int,
        b as int,
    ) by {}
    let mut out: Vec<String> = Vec::new();
    for i in 0..n
        invariant
            names == package_graph::graph_names(*g),
            n == names.len(),
            reached@.len() == n,
            forall|b: usize|
                b < n ==> #[trigger] reached@[b as int] == package_graph::reaches(
                    edges,
                    start as int,
                    b as int,
                ),
            text::texts(out@) == requirements_of(names, edges, start as int, i as int),
    {
        assert(reached@[i as int] == package_graph::reaches(edges, start as int, i as int));
        if i != start && reached[i] {
            let found = package_graph::node_name(g, i).unwrap();
            text::push_text(&mut out, found);
        }
    }
    Some(out)
}

/// The packages of the graph that lie between the executable and a package under debug, in the
/// order in which they are built.
pub fn sort_needed_packages(
    executable_name: &str,
    g: &DiGraph<String, ()>,
    need_debug_pkgs: &Vec<String>,
) -> (r: Result<DependencyTopologicalInfo, ConanfileError>)
    ensures
        match r {
            Ok(info) => is_build_order(
                package_graph::graph_names(*g),
                package_graph::graph_edges(*g),
                executable_name@,
                text::texts(need_debug_pkgs@),
                info,
            ),
            Err(e) => e matches ConanfileError::Cycle(node) && package_graph::on_cycle(
                needed_edges(
                    package_graph::graph_names(*g),
                    package_graph::graph_edges(*g),
                    executable_name@,
                    text::texts(need_debug_pkgs@),
                ),
                node as int,
            ),
        },
{
    let ghost names = package_graph::graph_names(*g);
    let ghost edges = package_graph::graph_edges(*g);
    let ghost wanted = text::texts(need_debug_pkgs@);
    let mut debug = text::clone_texts(need_debug_pkgs);
    if !text::texts_contain(need_debug_pkgs, executable_name) {
        text::push_text(&mut debug, executable_name.to_owned());
    }
    assert(text::texts(debug@) == with_executable(wanted, executable_name@));
    let keep = needed_marks(executable_name, g, &debug);
    let kept = package_graph::keep_nodes(g, &keep);
    let ghost kn = package_graph::graph_names(kept);
    let order = match package_graph::toposort(&kept) {
        Ok(order) => order,
        Err(node) => {
            return Err(ConanfileError::Cycle(node));
        },
    };
    let ghost ints = package_graph::as_ints(order@);
    let mut sorted_names: Vec<String> = Vec::new();
    let mut i: usize = order.len();
    while i > 0
        invariant
            i <= order@.len(),
            kn == package_graph::graph_names(kept),
            ints == package_graph::as_ints(order@),
            package_graph::is_ordering(ints, kn.len()),
            text::texts(sorted_names@) == names_backwards(kn, ints).take(order@.len() - i),
        decreases i,
    {
        i -= 1;
        let ghost before = sorted_names@;
        assert(ints[i as int] == order@[i as int]);
        let name = package_graph::node_name(&kept, order[i]).unwrap();
        sorted_names.push(name);
        assert(text::texts(sorted_names@) =~= text::texts(before).push(kn[ints[i as int]]));
        assert(text::texts(sorted_names@) =~= names_backwards(kn, ints).take(order@.len() - i));
    }
    assert(text::texts(sorted_names@) =~= names_backwards(kn, ints));
    let remaining = all_names(&kept);
    let mut need_debug: Vec<String> = Vec::new();
    let ghost ds = text::texts(debug@);
    for k in 0..debug.len()
        invariant
            ds == text::texts(debug@),
            text::texts(remaining@) == kn,
            text::texts(need_debug@) == still_present(ds.take(k as int), kn),
    {
        assert(ds.take(k + 1).drop_last() =~= ds.take(k as int));
        if text::texts_contain(&remaining, debug[k].as_str()) {
            text::push_text(&mut need_debug, debug[k].clone());
        }
    }
    assert(ds.take(ds.len() as int) =~= ds);
    let info = DependencyTopologicalInfo { graph: kept, sorted_names, need_debug_pkgs: need_debug };
    assert(is_sorted_by(
        ints,
        needed_names(names, edges, executable_name@, wanted),
        needed_edges(names, edges, executable_name@, wanted),
        text::texts(info.sorted_names@),
    ));
    Ok(info)
}

/// The packages needed for a debug session of the executable, in the order in which they are
/// built.
pub fn build_dependency_graph_and_topological_sort<Q: DependencyQueryInput>(
    executable_name: &str,
    possible_dependencies: &Q,
    need_debug_pkgs: &Vec<String>,
) -> (r: Result<DependencyTopologicalInfo, ConanfileError>)
    ensures
        exists|names: Vec<String>, built: Result<DiGraph<String, ()>, ConanfileError>| #[trigger]
            call_ensures(Q::get_all_dependencies, (possible_dependencies,), names)
                && #[trigger] graph_of_source(possible_dependencies, text::texts(names@), built)
                && match (built, r) {
                (Ok(g), Ok(info)) => is_build_order(
                    package_graph::graph_names(g),
                    package_graph::graph_edges(g),
                    executable_name@,
                    text::texts(need_debug_pkgs@),
                    info,
                ),
                (Ok(g), Err(e)) => e matches ConanfileError::Cycle(node)
                    && package_graph::on_cycle(
                    needed_edges(
                        package_graph::graph_names(g),
                        package_graph::graph_edges(g),
                        executable_name@,
                        text::texts(need_debug_pkgs@),
                    ),
                    node as int,
                ),
                (Err(e), Err(f)) => e == f,
                (Err(_), Ok(_)) => false,
            },
{
    let built = build_all_dependency_graph(possible_dependencies);
    match built {
        Ok(g) => sort_needed_packages(executable_name, &g, need_debug_pkgs),
        Err(e) => Err(e),
    }
}

proof fn lemma_edges_to_inside(
    names: Seq<Seq<char>>,
    i: int,
    found: Seq<Seq<char>>,
)
    requires
        0 <= i < names.len(),
    ensures
        package_graph::edges_inside(edges_to(names, i, found), names.len()),
    decreases found.len(),
{
    if found.len() > 0 {
        lemma_edges_to_inside(names, i, found.drop_last());
        lemma_last_named(names, found.last());
    }
}

/// Every requirement joins two of the packages.
pub proof fn law_requirements_stay_inside(
    names: Seq<Seq<char>>,
    contents: Seq<Seq<char>>,
    n: int,
)
    requires
        n <= names.len(),
    ensures
        package_graph::edges_inside(requirement_edges(names, contents, n), names.len()),
    decreases n,
{
    if n > 0 {
        law_requirements_stay_inside(names, contents, n - 1);
        lemma_edges_to_inside(names, n - 1, required_in(contents[n - 1], names));
    }
}

/// In the build order every package stands after each package that it requires.
pub proof fn law_requirements_are_built_first(
    names: Seq<Seq<char>>,
    edges: Seq<(int, int)>,
    executable: Seq<char>,
    debug: Seq<Seq<char>>,
    info: DependencyTopologicalInfo,
    a: int,
    b: int,
)
    requires
        package_graph::edges_inside(edges, names.len()),
        is_build_order(names, edges, executable, debug, info),
        package_graph::graph_edges(info.graph).contains((a, b)),
    ensures
        exists|i: int, j: int|
            0 <= i < j < info.sorted_names@.len() && (#[trigger] info.sorted_names@[i])@
                == package_graph::graph_names(info.graph)[b]
                && (#[trigger] info.sorted_names@[j])@ == package_graph::graph_names(
                info.graph,
            )[a],
{
    let kept = needed_names(names, edges, executable, debug);
    let links = needed_edges(names, edges, executable, debug);
    let order = choose|order: Seq<int>| #[trigger]
        is_sorted_by(order, kept, links, text::texts(info.sorted_names@));
    package_graph::lemma_kept_edges_inside(
        names,
        edges,
        needed(names, edges, executable, with_executable(debug, executable)),
    );
    let e = choose|e: int| 0 <= e < links.len() && links[e] == (a, b);
    assert(0 <= links[e].0 < kept.len() && 0 <= links[e].1 < kept.len());
    assert(order.contains(a) && order.contains(b));
    let p = order.index_of(a);
    let q = order.index_of(b);
    assert(links.contains((order[p], order[q])));
    let i = order.len() - 1 - q;
    let j = order.len() - 1 - p;
    let sorted = text::texts(info.sorted_names@);
    assert(sorted.len() == order.len());
    assert(sorted[i] == kept[b] && sorted[j] == kept[a]);
    assert(info.sorted_names@[i]@ == kept[b] && info.sorted_names@[j]@ == kept[a]);
}

/// A build order exists only where no needed package requires itself, directly or not.
pub proof fn law_no_order_of_a_cycle(
    names: Seq<Seq<char>>,
    edges: Seq<(int, int)>,
    executable: Seq<char>,
    debug: Seq<Seq<char>>,
    info: DependencyTopologicalInfo,
)
    requires
        package_graph::edges_inside(edges, names.len()),
        is_build_order(names, edges, executable, debug, info),
    ensures
        forall|a: int|
            !package_graph::on_cycle(needed_edges(names, edges, executable, debug), a),
{
    let kept = needed_names(names, edges, executable, debug);
    let links = needed_edges(names, edges, executable, debug);
    package_graph::lemma_kept_edges_inside(
        names,
        edges,
        needed(names, edges, executable, with_executable(debug, executable)),
    );
    let order = choose|order: Seq<int>| #[trigger]
        is_sorted_by(order, kept, links, text::texts(info.sorted_names@));
    package_graph::law_ordered_graph_has_no_cycle(order, kept.len(), links);
}

proof fn lemma_walk_extends(edges: Seq<(int, int)>, p: int, c: int, t: int)
    requires
        edges.contains((p, c)),
        package_graph::reaches(edges, c, t),
    ensures
        package_graph::reaches(edges, p, t),
{
    let path = choose|path: Seq<int>|
        path.len() > 0 && path[0] == c && path.last() == t && #[trigger] package_graph::is_walk(
            edges,
            path,
        );
    let longer = seq![p] + path;
    assert forall|k: int| 0 <= k < longer.len() - 1 implies #[trigger] package_graph::has_step(
        edges,
        longer,
        k,
    ) by {
        if k > 0 {
            assert(package_graph::has_step(edges, path, k - 1));
        }
    }
    assert(package_graph::is_walk(edges, longer));
    assert(longer.last() == t);
}

proof fn lemma_needed_has_needed_user(
    names: Seq<Seq<char>>,
    edges: Seq<(int, int)>,
    executable: Seq<char>,
    debug: Seq<Seq<char>>,
    c: int,
) -> (p: int)
    requires
        package_graph::edges_inside(edges, names.len()),
        0 <= c < names.len(),
        needed(names, edges, executable, debug)[c],
        first_named(names, executable) != Some(c),
    ensures
        0 <= p < names.len(),
        edges.contains((p, c)),
        needed(names, edges, executable, debug)[p],
{
    let s = first_named(names, executable)->0;
    assert(led_from(names, edges, executable, c));
    let path = choose|path: Seq<int>|
        path.len() > 0 && path[0] == s && path.last() == c && #[trigger] package_graph::is_walk(
            edges,
            path,
        );
    let m = path.len() - 2;
    assert(m >= 0);
    let p = path[m];
    assert(package_graph::has_step(edges, path, m));
    let e = choose|e: int| 0 <= e < edges.len() && edges[e] == (p, c);
    assert(0 <= edges[e].0 < names.len());
    let front = path.take(m + 1);
    assert forall|k: int| 0 <= k < front.len() - 1 implies #[trigger] package_graph::has_step(
        edges,
        front,
        k,
    ) by {
        assert(package_graph::has_step(edges, path, k));
    }
    assert(package_graph::is_walk(edges, front));
    assert(front.last() == p);
    assert(led_from(names, edges, executable, p));
    let d = choose|d: int| 0 <= d < debug.len() && leads_to(names, edges, c, #[trigger] debug[d]);
    lemma_walk_extends(edges, p, c, first_named(names, debug[d])->0);
    assert(leads_to(names, edges, p, debug[d]));
    p
}

/// Where any package is needed at all, the executable is, and it is built last.
pub proof fn law_executable_is_built_last(
    names: Seq<Seq<char>>,
    edges: Seq<(int, int)>,
    executable: Seq<char>,
    debug: Seq<Seq<char>>,
    info: DependencyTopologicalInfo,
)
    requires
        package_graph::edges_inside(edges, names.len()),
        is_build_order(names, edges, executable, debug, info),
        info.sorted_names@.len() > 0,
    ensures
        info.sorted_names@.last()@ == executable,
{
    let wanted = with_executable(debug, executable);
    let keep = needed(names, edges, executable, wanted);
    let kept = needed_names(names, edges, executable, debug);
    let links = needed_edges(names, edges, executable, debug);
    let order = choose|order: Seq<int>| #[trigger]
        is_sorted_by(order, kept, links, text::texts(info.sorted_names@));
    let sorted = text::texts(info.sorted_names@);
    assert(sorted.len() == order.len());
    let x = order[0];
    let c = package_graph::lemma_kept_origin(names, keep, x, names.len() as int);
    package_graph::lemma_kept_index(names, keep, c, names.len() as int);
    lemma_first_named(names, executable);
    if first_named(names, executable) != Some(c) {
        let p = lemma_needed_has_needed_user(names, edges, executable, wanted, c);
        package_graph::lemma_kept_edge(edges, keep, p, c);
        package_graph::lemma_kept_index(names, keep, p, names.len() as int);
        let y = package_graph::kept_before(keep, p);
        assert(order.contains(y));
        let q = order.index_of(y);
        assert(links.contains((order[q], order[0])));
        assert(false);
    }
    assert(kept[x] == executable);
    assert(sorted.last() == kept[order[0]]);
    assert(info.sorted_names@.last()@ == sorted.last());
}

proof fn lemma_still_present(debug: Seq<Seq<char>>, names: Seq<Seq<char>>, k: int)
    requires
        0 <= k < still_present(debug, names).len(),
    ensures
        names.contains(still_present(debug, names)[k]),
        debug.contains(still_present(debug, names)[k]),
    decreases debug.len(),
{
    let rest = still_present(debug.drop_last(), names);
    if k < rest.len() {
        lemma_still_present(debug.drop_last(), names, k);
        let i = choose|i: int| 0 <= i < debug.len() - 1 && debug.drop_last()[i] == rest[k];
        assert(debug[i] == rest[k]);
    } else {
        assert(debug[debug.len() - 1] == debug.last());
    }
}

/// Every package that stays under debug is among the needed packages, and was under debug
/// before or is the executable.
pub proof fn law_debug_packages_are_needed(
    names: Seq<Seq<char>>,
    edges: Seq<(int, int)>,
    executable: Seq<char>,
    debug: Seq<Seq<char>>,
    info: DependencyTopologicalInfo,
    k: int,
)
    requires
        is_build_order(names, edges, executable, debug, info),
        0 <= k < info.need_debug_pkgs@.len(),
    ensures
        package_graph::graph_names(info.graph).contains(info.need_debug_pkgs@[k]@),
        debug.contains(info.need_debug_pkgs@[k]@) || info.need_debug_pkgs@[k]@ == executable,
{
    let wanted = with_executable(debug, executable);
    let kept = needed_names(names, edges, executable, debug);
    lemma_still_present(wanted, kept, k);
    let left = text::texts(info.need_debug_pkgs@);
    assert(left[k] == info.need_debug_pkgs@[k]@);
    let i = choose|i: int| 0 <= i < wanted.len() && wanted[i] == left[k];
    if !debug.contains(executable) && i < debug.len() {
        assert(debug[i] == left[k]);
    }
}

/// Whether the texts of two lists are the same, each as often in one as in the other.
pub open spec fn same_members(a: Seq<Seq<char>>, b: Seq<Seq<char>>) -> bool {
    a.to_multiset() == b.to_multiset()
}

/// The names of some nodes.
pub open spec fn names_at(names: Seq<Seq<char>>, nodes: Seq<int>) -> Seq<Seq<char>> {
    Seq::new(nodes.len(), |k: int| names[nodes[k]])
}

/// The names of the nodes that the edges from node `i` lead to, each as often as an edge does.
pub open spec fn target_names(
    names: Seq<Seq<char>>,
    edges: Seq<(int, int)>,
    i: int,
) -> Seq<Seq<char>> {
    names_at(names, package_graph::targets_from(edges, i))
}

/// Two graphs have as many nodes, and every node of the first has a node of its name in the
/// second (the last of that name) with edges to the same names, each as often.
pub open spec fn graphs_agree(
    names1: Seq<Seq<char>>,
    edges1: Seq<(int, int)>,
    names2: Seq<Seq<char>>,
    edges2: Seq<(int, int)>,
) -> bool {
    &&& names1.len() == names2.len()
    &&& forall|i: int| 0 <= i < names1.len() ==> node_agrees(names1, edges1, names2, edges2, i)
}

/// Node `i` of the first graph has its like in the second.
pub open spec fn node_agrees(
    names1: Seq<Seq<char>>,
    edges1: Seq<(int, int)>,
    names2: Seq<Seq<char>>,
    edges2: Seq<(int, int)>,
    i: int,
) -> bool {
    match last_named(names2, names1[i]) {
        Some(j) => same_members(
            target_names(names1, edges1, i),
            target_names(names2, edges2, j),
        ),
        None => false,
    }
}

/// How often the text is in the list.
fn count_of(list: &Vec<String>, s: &str) -> (r: usize)
    ensures
        r == text::texts(list@).to_multiset().count(s@),
{
    broadcast use vstd::seq_lib::group_to_multiset_ensures;

    let ghost all = text::texts(list@);
    let mut n: usize = 0;
    assert(all.take(0) =~= Seq::empty());
    for i in 0..list.len()
        invariant
            all == text::texts(list@),
            n == all.take(i as int).to_multiset().count(s@),
            n <= i,
    {
        proof {
            assert(all.take(i + 1) =~= all.take(i as int).push(all[i as int]));
            vstd::seq_lib::to_multiset_build(all.take(i as int), all[i as int]);
        }
        if text::same_text(list[i].as_str(), s) {
            n += 1;
        }
    }
    assert(all.take(all.len() as int) =~= all);
    n
}

/// Whether two lists hold the same texts, each as often.
fn lists_agree(a: &Vec<String>, b: &Vec<String>) -> (r: bool)
    ensures
        r == same_members(text::texts(a@), text::texts(b@)),
{
    broadcast use vstd::seq_lib::group_to_multiset_ensures;

    let ghost sa = text::texts(a@);
    let ghost sb = text::texts(b@);
    if a.len() != b.len() {
        assert(sa.to_multiset().len() != sb.to_multiset().len());
        return false;
    }
    for i in 0..a.len()
        invariant
            sa == text::texts(a@),
            sb == text::texts(b@),
            forall|k: int|
                0 <= k < i ==> sa.to_multiset().count(#[trigger] sa[k]) == sb.to_multiset().count(
                    sa[k],
                ),
    {
        if count_of(a, a[i].as_str()) != count_of(b, a[i].as_str()) {
            assert(sa.to_multiset().count(sa[i as int]) != sb.to_multiset().count(sa[i as int]));
            return false;
        }
        assert(sa[i as int] == a@[i as int]@);
    }
    for i in 0..b.len()
        invariant
            sa == text::texts(a@),
            sb == text::texts(b@),
            forall|k: int|
                0 <= k < i ==> sa.to_multiset().count(#[trigger] sb[k]) == sb.to_multiset().count(
                    sb[k],
                ),
    {
        if count_of(a, b[i].as_str()) != count_of(b, b[i].as_str()) {
            assert(sa.to_multiset().count(sb[i as int]) != sb.to_multiset().count(sb[i as int]));
            return false;
        }
        assert(sb[i as int] == b@[i as int]@);
    }
    assert forall|v: Seq<char>| sa.to_multiset().count(v) == sb.to_multiset().count(v) by {
        if sa.contains(v) {
            let k = choose|k: int| 0 <= k < sa.len() && sa[k] == v;
            assert(sa.to_multiset().count(sa[k]) == sb.to_multiset().count(sa[k]));
        } else if sb.contains(v) {
            let k = choose|k: int| 0 <= k < sb.len() && sb[k] == v;
            assert(sa.to_multiset().count(sb[k]) == sb.to_multiset().count(sb[k]));
        }
    }
    assert(sa.to_multiset() =~= sb.to_multiset());
    true
}

proof fn lemma_names_of_same_nodes(names: Seq<Seq<char>>, a: Seq<int>, b: Seq<int>)
    requires
        a.to_multiset() == b.to_multiset(),
    ensures
        same_members(names_at(names, a), names_at(names, b)),
    decreases a.len(),
{
    broadcast use vstd::seq_lib::group_to_multiset_ensures;

    assert(a.len() == a.to_multiset().len() && b.len() == b.to_multiset().len());
    if a.len() == 0 {
        assert(names_at(names, a) =~= names_at(names, b));
    } else {
        let n = a.len() - 1;
        assert(a.contains(a[n]));
        assert(b.to_multiset().count(a[n]) > 0);
        let k = b.index_of(a[n]);
        lemma_names_of_same_nodes(names, a.remove(n), b.remove(k));
        assert(names_at(names, a).remove(n) =~= names_at(names, a.remove(n)));
        assert(names_at(names, b).remove(k) =~= names_at(names, b.remove(k)));
        vstd::seq_lib::to_multiset_remove(names_at(names, a), n);
        vstd::seq_lib::to_multiset_remove(names_at(names, b), k);
        let ma = names_at(names, a).to_multiset();
        let mb = names_at(names, b).to_multiset();
        let name = names[a[n]];
        assert(names_at(names, a)[n] == name && names_at(names, b)[k] == name);
        assert(names_at(names, a).contains(name) && names_at(names, b).contains(name));
        assert forall|v: Seq<char>| ma.count(v) == mb.count(v) by {
            assert(ma.remove(name).count(v) == mb.remove(name).count(v));
        }
        assert(ma =~= mb);
    }
}

/// The names of the nodes that the edges from node `i` of the graph lead to.
fn neighbor_names(g: &DiGraph<String, ()>, i: usize) -> (r: Vec<String>)
    requires
        i < package_graph::graph_names(*g).len(),
    ensures
        same_members(
            text::texts(r@),
            target_names(
                package_graph::graph_names(*g),
                package_graph::graph_edges(*g),
                i as int,
            ),
        ),
{
    let nodes = package_graph::neighbors(g, i);
    let ghost ints = package_graph::as_ints(nodes@);
    let ghost all = names_at(package_graph::graph_names(*g), ints);
    let mut out: Vec<String> = Vec::new();
    for k in 0..nodes.len()
        invariant
            ints == package_graph::as_ints(nodes@),
            all == names_at(package_graph::graph_names(*g), ints),
            forall|j: int|
                0 <= j < nodes@.len() ==> (#[trigger] nodes@[j]) < package_graph::graph_names(
                    *g,
                ).len(),
            text::texts(out@) == all.take(k as int),
    {
        let ghost before = out@;
        let name = package_graph::node_name(g, nodes[k]).unwrap();
        out.push(name);
        assert(ints[k as int] == nodes@[k as int]);
        assert(text::texts(out@) =~= text::texts(before).push(all[k as int]));
    }
    assert(text::texts(out@) =~= all);
    proof {
        lemma_names_of_same_nodes(
            package_graph::graph_names(*g),
            ints,
            package_graph::targets_from(package_graph::graph_edges(*g), i as int),
        );
    }
    out
}

/// Whether two graphs hold the same packages with the same requirements.
pub fn check_graph_equal(graph1: &DiGraph<String, ()>, graph2: &DiGraph<String, ()>) -> (r: bool)
    ensures
        r == graphs_agree(
            package_graph::graph_names(*graph1),
            package_graph::graph_edges(*graph1),
            package_graph::graph_names(*graph2),
            package_graph::graph_edges(*graph2),
        ),
{
    let ghost n1 = package_graph::graph_names(*graph1);
    let ghost e1 = package_graph::graph_edges(*graph1);
    let ghost n2 = package_graph::graph_names(*graph2);
    let ghost e2 = package_graph::graph_edges(*graph2);
    let n: usize = package_graph::node_count(graph1);
    if n != package_graph::node_count(graph2) {
        return false;
    }
    let names2 = all_names(graph2);
    for i in 0..n
        invariant
            n1 == package_graph::graph_names(*graph1),
            e1 == package_graph::graph_edges(*graph1),
            n2 == package_graph::graph_names(*graph2),
            e2 == package_graph::graph_edges(*graph2),
            n == n1.len(),
            n1.len() == n2.len(),
            text::texts(names2@) == n2,
            forall|k: int| 0 <= k < i ==> node_agrees(n1, e1, n2, e2, k),
    {
        let name = package_graph::node_name(graph1, i).unwrap();
        let agrees = match find_last(&names2, name.as_str()) {
            Some(j) => {
                assert(text::texts(names2@).len() == names2@.len());
                lists_agree(&neighbor_names(graph1, i), &neighbor_names(graph2, j))
            },
            None => false,
        };
        assert(agrees == node_agrees(n1, e1, n2, e2, i as int));
        if !agrees {
            return false;
        }
    }
    true
}

} // verus!
