//! Installing the packages that a repository requires with Conan.

use crate::error::FileText;
use crate::hash::{self, HashType};
use crate::paths::{self, PathStyle};
use crate::task::TaskMeta;
use crate::text;
use vstd::prelude::*;

verus! {

/// A repository to install packages for.
pub struct ConanInstallInput {
    pub repo_dir: String,
    pub extra_conan_options: Vec<String>,
    pub conan_output_folder: String,
    /// Whether packages are to be installed in any case.
    pub need_install: bool,
    /// Whether packages are to be updated in any case.
    pub need_update: bool,
}

/// What installing packages gives.
pub struct ConanInstallOutput {
    pub conan_toolchain_path: Option<String>,
    pub new_conan_toolchain_hash: Option<HashType>,
}

/// Installs the packages that repositories require.
pub struct ConanInstallTask {}

impl TaskMeta for ConanInstallTask {
    fn id(&self) -> (r: &'static str)
        ensures
            r@ == "conan_install"@,
    {
        "conan_install"
    }
}

/// Why packages could not be installed.
#[derive(Debug)]
pub enum ConanError {
    /// The output does not name the folder with the toolchain.
    NoGeneratorsFolder,
    /// There is no toolchain at this path.
    NoToolchain(String),
    /// The toolchain at this path cannot be read.
    UnreadableToolchain(String),
}

/// What `String::from_utf8_lossy` makes of some bytes.
pub uninterp spec fn lossy_text(bytes: Seq<u8>) -> Seq<char>;

/// The string that `serde_json` finds in a JSON text under four keys, one below the other.
pub uninterp spec fn json_text_at(
    content: Seq<char>,
    a: Seq<char>,
    b: Seq<char>,
    c: Seq<char>,
    d: Seq<char>,
) -> Option<Seq<char>>;

/// `String::from_utf8_lossy`.
#[verifier::external_body]
fn text_from_utf8_lossy(bytes: &Vec<u8>) -> (r: String)
    ensures
        r@ == lossy_text(bytes@),
{
    String::from_utf8_lossy(bytes).into_owned()
}

/// `serde_json::from_str`, then `serde_json::Value::get` with each key and
/// `serde_json::Value::as_str`; `None` where the text is no JSON, a key is missing, or there is
/// no string.
#[verifier::external_body]
fn json_text(content: &str, a: &str, b: &str, c: &str, d: &str) -> (r: Option<String>)
    ensures
        text::opt_text(r) == json_text_at(content@, a@, b@, c@, d@),
{
    let json = serde_json::from_str::<serde_json::Value>(content).ok()?;
    json.get(a)?.get(b)?.get(c)?.get(d)?.as_str().map(|s| s.to_string())
}

/// The folder with the toolchain that the output of Conan names.
pub open spec fn generators_folder(output: Seq<u8>) -> Option<Seq<char>> {
    json_text_at(lossy_text(output), "graph"@, "nodes"@, "0"@, "generators_folder"@)
}

/// The folder with the toolchain that the output of Conan names.
pub fn extract_generators_folder(stdout: &Vec<u8>) -> (r: Option<String>)
    ensures
        text::opt_text(r) == generators_folder(stdout@),
{
    let content = text_from_utf8_lossy(stdout);
    json_text(content.as_str(), "graph", "nodes", "0", "generators_folder")
}

/// What the packages of a repository rest on.
pub open spec fn conanfile_hash(content: Seq<char>, options: Seq<Seq<char>>) -> HashType {
    hash::hash_of(seq![content] + hash::list_parts(options))
}

/// Packages are to be updated: on demand, or where they rest on something else than last time.
pub open spec fn needs_update(demanded: bool, last: Option<HashType>, now: HashType) -> bool {
    demanded || last != Some(now)
}

/// The arguments that Conan is run with.
pub open spec fn install_arguments(
    output_folder: Seq<char>,
    options: Seq<Seq<char>>,
    update: bool,
) -> Seq<Seq<char>> {
    seq!["install"@, "."@, "--output-folder"@, output_folder, "--format=json"@] + options + (
    if update {
        seq!["--update"@]
    } else {
        Seq::empty()
    })
}

/// What is to be done about the packages of a repository.
pub struct ConanInstallPlan {
    /// The arguments that Conan is run with, where it is to run.
    pub arguments: Option<Vec<String>>,
    /// What the packages rest on now.
    pub fingerprint: HashType,
}

/// What is to be done about the packages of a repository with this recipe.
pub fn conan_install(
    input: &ConanInstallInput,
    conanfile_content: &str,
    last_fingerprint: Option<HashType>,
) -> (r: ConanInstallPlan)
    ensures
        ({
            let options = text::texts(input.extra_conan_options@);
            let update = needs_update(input.need_update, last_fingerprint, r.fingerprint);
            &&& r.fingerprint == conanfile_hash(conanfile_content@, options)
            &&& match r.arguments {
                Some(arguments) => (input.need_install || update) && text::texts(arguments@)
                    == install_arguments(input.conan_output_folder@, options, update),
                None => !input.need_install && !update,
            }
        }),
{
    let ghost options = text::texts(input.extra_conan_options@);
    let mut parts: Vec<String> = Vec::new();
    text::push_text(&mut parts, conanfile_content.to_owned());
    hash::append_list(&mut parts, &input.extra_conan_options);
    assert(text::texts(parts@) =~= seq![conanfile_content@] + hash::list_parts(options));
    let fingerprint = hash::hash_texts(&parts);
    let changed = match last_fingerprint {
        Some(last) => last != fingerprint,
        None => true,
    };
    let update = changed || input.need_update;
    if !input.need_install && !update {
        return ConanInstallPlan { arguments: None, fingerprint };
    }
    let mut arguments: Vec<String> = Vec::new();
    text::push_text(&mut arguments, "install".to_owned());
    text::push_text(&mut arguments, ".".to_owned());
    text::push_text(&mut arguments, "--output-folder".to_owned());
    text::push_text(&mut arguments, input.conan_output_folder.clone());
    text::push_text(&mut arguments, "--format=json".to_owned());
    text::append_texts(&mut arguments, &input.extra_conan_options);
    if update {
        text::push_text(&mut arguments, "--update".to_owned());
    }
    assert(text::texts(arguments@) =~= install_arguments(
        input.conan_output_folder@,
        options,
        update,
    ));
    ConanInstallPlan { arguments: Some(arguments), fingerprint }
}

/// The toolchain below a folder.
pub open spec fn toolchain_below(style: char, folder: Seq<char>) -> Seq<char> {
    paths::joined_path(style, folder, "conan_toolchain.cmake"@)
}

/// The toolchain that Conan says it made.
pub fn conan_toolchain_path(style: &PathStyle, stdout: &Vec<u8>) -> (r: Result<String, ConanError>)
    ensures
        match generators_folder(stdout@) {
            Some(folder) => r matches Ok(path) && path@ == toolchain_below(style@, folder),
            None => r matches Err(e) && e is NoGeneratorsFolder,
        },
{
    match extract_generators_folder(stdout) {
        Some(folder) => Ok(paths::join(style, folder.as_str(), "conan_toolchain.cmake")),
        None => Err(ConanError::NoGeneratorsFolder),
    }
}

/// What installing packages gave, from the toolchain that was made.
pub fn conan_install_output(toolchain_path: String, toolchain: FileText) -> (r: Result<
    ConanInstallOutput,
    ConanError,
>)
    ensures
        match toolchain {
            FileText::Text(content) => r matches Ok(output) && output.conan_toolchain_path == Some(
                toolchain_path,
            ) && output.new_conan_toolchain_hash == Some(hash::hash_of(seq![content@])),
            FileText::Missing => r matches Err(e) && e == ConanError::NoToolchain(toolchain_path),
            FileText::Unreadable => r matches Err(e) && e == ConanError::UnreadableToolchain(
                toolchain_path,
            ),
        },
{
    match toolchain {
        FileText::Text(content) => Ok(
            ConanInstallOutput {
                conan_toolchain_path: Some(toolchain_path),
                new_conan_toolchain_hash: Some(hash::hash_text(content.as_str())),
            },
        ),
        FileText::Missing => Err(ConanError::NoToolchain(toolchain_path)),
        FileText::Unreadable => Err(ConanError::UnreadableToolchain(toolchain_path)),
    }
}

/// What there is where Conan was not run.
pub fn conan_install_skipped() -> (r: ConanInstallOutput)
    ensures
        r.conan_toolchain_path is None,
        r.new_conan_toolchain_hash is None,
{
    ConanInstallOutput { conan_toolchain_path: None, new_conan_toolchain_hash: None }
}

/// Packages that rest on what they rested on last time are installed again only on demand.
pub proof fn law_unchanged_packages_are_skipped(content: Seq<char>, options: Seq<Seq<char>>)
    ensures
        !needs_update(
            false,
            Some(conanfile_hash(content, options)),
            conanfile_hash(content, options),
        ),
{
}

/// Where an update is demanded the packages are installed with it, whatever was installed before.
pub proof fn law_demanded_update_is_passed_on(
    output_folder: Seq<char>,
    options: Seq<Seq<char>>,
    last: Option<HashType>,
    now: HashType,
)
    ensures
        needs_update(true, last, now),
        install_arguments(output_folder, options, true).last() == "--update"@,
{
}

/// What two installations rest on tells their recipes and options apart: it is hashed from the
/// same bytes exactly where both are the same. Where nothing is demanded, Conan runs the second
/// time exactly where what it rests on is not what it rested on the first time.
pub proof fn law_changed_packages_are_installed_again(
    before: &ConanInstallInput,
    recipe_before: &str,
    last: Option<HashType>,
    first: ConanInstallPlan,
    now: &ConanInstallInput,
    recipe_now: &str,
    second: ConanInstallPlan,
)
    requires
        call_ensures(conan_install, (before, recipe_before, last), first),
        call_ensures(conan_install, (now, recipe_now, Some(first.fingerprint)), second),
    ensures
        hash::rest_on_same(
            first.fingerprint,
            second.fingerprint,
            recipe_before@ == recipe_now@ && text::texts(before.extra_conan_options@)
                == text::texts(now.extra_conan_options@),
        ),
        second.arguments is Some <==> now.need_install || now.need_update || first.fingerprint
            != second.fingerprint,
        last is None ==> first.arguments is Some,
{
    let a = text::texts(before.extra_conan_options@);
    let b = text::texts(now.extra_conan_options@);
    let x = seq![recipe_before@] + hash::list_parts(a);
    let y = seq![recipe_now@] + hash::list_parts(b);
    hash::lemma_rest_on_same(x, y);
    if x == y {
        assert(x[0] == recipe_before@ && y[0] == recipe_now@);
        assert(x.skip(1) =~= hash::list_parts(a) + Seq::empty());
        assert(y.skip(1) =~= hash::list_parts(b) + Seq::empty());
        hash::lemma_list_parts(a, Seq::empty(), b, Seq::empty());
    }
}

/// Conan is run to install into the folder of the repository with all of its options, in their
/// order, and with an update exactly where one is demanded or the packages rest on something
/// else than last time.
pub proof fn law_options_reach_conan(
    input: &ConanInstallInput,
    recipe: &str,
    last: Option<HashType>,
    plan: ConanInstallPlan,
    arguments: Vec<String>,
)
    requires
        call_ensures(conan_install, (input, recipe, last), plan),
        plan.arguments == Some(arguments),
    ensures
        ({
            let given = text::texts(arguments@);
            let options = text::texts(input.extra_conan_options@);
            let update = input.need_update || last != Some(plan.fingerprint);
            &&& given.len() == 5 + options.len() + (if update {
                1int
            } else {
                0
            })
            &&& given[0] == "install"@
            &&& given[1] == "."@
            &&& given[2] == "--output-folder"@
            &&& given[3] == input.conan_output_folder@
            &&& given[4] == "--format=json"@
            &&& forall|i: int| 0 <= i < options.len() ==> #[trigger] given[5 + i] == options[i]
            &&& update ==> given.last() == "--update"@
        }),
{
}

/// The hash of a toolchain rests on what the toolchain holds, and its path is kept.
pub proof fn law_toolchains_are_told_apart(
    path: String,
    a: FileText,
    b: FileText,
    x: ConanInstallOutput,
    y: ConanInstallOutput,
)
    requires
        call_ensures(conan_install_output, (path, a), Ok::<ConanInstallOutput, ConanError>(x)),
        call_ensures(conan_install_output, (path, b), Ok::<ConanInstallOutput, ConanError>(y)),
    ensures
        x.conan_toolchain_path == Some(path),
        match (a, b, x.new_conan_toolchain_hash, y.new_conan_toolchain_hash) {
            (FileText::Text(s), FileText::Text(t), Some(h), Some(k)) => hash::rest_on_same(
                h,
                k,
                s@ == t@,
            ),
            _ => false,
        },
{
    if let FileText::Text(s) = a {
        if let FileText::Text(t) = b {
            hash::lemma_rest_on_same(seq![s@], seq![t@]);
            if seq![s@] == seq![t@] {
                assert(seq![s@][0] == seq![t@][0]);
            }
        }
    }
}

/// The toolchain is in the folder that the output names for the first node of its graph; output
/// that names none is refused.
pub proof fn law_toolchain_is_where_conan_says(
    style: &PathStyle,
    stdout: &Vec<u8>,
    r: Result<String, ConanError>,
)
    requires
        call_ensures(conan_toolchain_path, (style, stdout), r),
    ensures
        match json_text_at(
            lossy_text(stdout@),
            "graph"@,
            "nodes"@,
            "0"@,
            "generators_folder"@,
        ) {
            Some(folder) => r matches Ok(path) && path@ == paths::joined_path(
                style@,
                folder,
                "conan_toolchain.cmake"@,
            ),
            None => r is Err,
        },
{
}

/// A toolchain that can be read is taken over, and any other is refused.
pub proof fn law_readable_toolchains_are_taken(
    path: String,
    toolchain: FileText,
    r: Result<ConanInstallOutput, ConanError>,
)
    requires
        call_ensures(conan_install_output, (path, toolchain), r),
    ensures
        r is Ok <==> toolchain is Text,
{
}

} // verus!
