//! The compilation database of a solution or repository.

use crate::cmake_presets::{self, EncodingError};
use crate::hash::{self, HashType};
use crate::paths::{self, PathContext};
use crate::task::TaskMeta;
use crate::text;
use vstd::prelude::*;

verus! {

/// Whether and how compilation databases are made.
pub struct CompileCommandsConfig {
    pub options: Vec<String>,
    pub enabled: bool,
}

impl Default for CompileCommandsConfig {
    fn default() -> (r: Self)
        ensures
            r.options@.len() == 0,
            !r.enabled,
    {
        CompileCommandsConfig { options: Vec::new(), enabled: false }
    }
}

/// A solution to make a compilation database for.
pub struct CompileCommandsInput<'a> {
    pub compile_commands_config: &'a CompileCommandsConfig,
    pub sln_path: Option<String>,
}

impl<'a> CompileCommandsInput<'a> {
    /// Whether a compilation database is made: where that is wanted and there is a solution.
    pub fn is_enabled(&self) -> (r: bool)
        ensures
            r == (self.compile_commands_config.enabled && self.sln_path is Some),
    {
        self.compile_commands_config.enabled && self.sln_path.is_some()
    }

    /// The options to make it with.
    pub fn get_options(&self) -> (r: &Vec<String>)
        ensures
            *r == self.compile_commands_config.options,
    {
        &self.compile_commands_config.options
    }
}

/// What a compilation database was made from, and what came out.
#[derive(Clone, Copy)]
pub struct CompileCommandsFingerprint {
    pub compile_commands_input_hash: HashType,
    pub compile_commands_output_hash: HashType,
}

impl Default for CompileCommandsFingerprint {
    fn default() -> (r: Self)
        ensures
            r.compile_commands_input_hash == 0,
            r.compile_commands_output_hash == 0,
    {
        CompileCommandsFingerprint {
            compile_commands_input_hash: 0,
            compile_commands_output_hash: 0,
        }
    }
}

/// A fingerprint as it is kept: in the present form, or in the old one, which has no hash of
/// what came out.
#[derive(Clone, Copy)]
pub enum StoredFingerprint {
    Legacy(HashType),
    Structured { input_hash: HashType, output_hash: HashType },
}

impl CompileCommandsFingerprint {
    /// The fingerprint that was kept.
    pub fn from_stored(stored: StoredFingerprint) -> (r: Self)
        ensures
            match stored {
                StoredFingerprint::Legacy(hash) => r.compile_commands_input_hash == hash
                    && r.compile_commands_output_hash == 0,
                StoredFingerprint::Structured { input_hash, output_hash } => {
                    r.compile_commands_input_hash == input_hash && r.compile_commands_output_hash
                        == output_hash
                },
            },
    {
        match stored {
            StoredFingerprint::Legacy(hash) => CompileCommandsFingerprint {
                compile_commands_input_hash: hash,
                compile_commands_output_hash: 0,
            },
            StoredFingerprint::Structured { input_hash, output_hash } => {
                CompileCommandsFingerprint {
                    compile_commands_input_hash: input_hash,
                    compile_commands_output_hash: output_hash,
                }
            },
        }
    }
}

/// Makes compilation databases for solutions.
pub struct CompileCommandsTask {
    /// The script that makes them, or why there is none.
    pub clang_build_script_path: Result<String, String>,
}

impl CompileCommandsTask {
    /// Makes compilation databases with this script.
    pub fn new(clang_build_script_path: Result<String, String>) -> (r: Self)
        ensures
            r.clang_build_script_path == clang_build_script_path,
    {
        CompileCommandsTask { clang_build_script_path }
    }
}

impl TaskMeta for CompileCommandsTask {
    fn id(&self) -> (r: &'static str)
        ensures
            r@ == "compile_commands"@,
    {
        "compile_commands"
    }
}

/// Why there is no compilation database.
#[derive(Debug)]
pub enum CompileCommandsError {
    /// There is no script to make it.
    NoScript(String),
    /// It is no JSON list.
    Malformed,
    /// It is empty.
    Empty,
    /// Its text cannot be told.
    Undecodable(EncodingError),
    /// The binary directory lies outside the repository.
    OutsideRepo { binary_dir: String, repo: String },
    /// The path of the binary directory from the repository does not begin with a name.
    NoDirectoryName(String),
}

impl CompileCommandsError {
    /// The description of the error, for the file at `path`.
    pub fn message(&self, path: &str) -> (r: String)
        ensures
            r@ == (match *self {
                CompileCommandsError::NoScript(s) => s@,
                CompileCommandsError::Malformed => "Failed to parse compile_commands JSON: "@
                    + path@,
                CompileCommandsError::Empty => "compile_commands JSON is empty: "@ + path@,
                CompileCommandsError::Undecodable(_) => "Failed to decode compile_commands JSON: "@
                    + path@,
                CompileCommandsError::OutsideRepo { binary_dir, repo } => "CMake binary dir '"@
                    + binary_dir@ + "' is outside repo '"@ + repo@ + "'"@,
                CompileCommandsError::NoDirectoryName(dir) => {
                    "Invalid first component in CMake binary dir '"@ + dir@ + "'"@
                },
            }),
    {
        match self {
            CompileCommandsError::NoScript(s) => s.clone(),
            CompileCommandsError::Malformed => {
                let mut m = "Failed to parse compile_commands JSON: ".to_owned();
                m.append(path);
                m
            },
            CompileCommandsError::Empty => {
                let mut m = "compile_commands JSON is empty: ".to_owned();
                m.append(path);
                m
            },
            CompileCommandsError::Undecodable(_) => {
                let mut m = "Failed to decode compile_commands JSON: ".to_owned();
                m.append(path);
                m
            },
            CompileCommandsError::OutsideRepo { binary_dir, repo } => {
                let mut m = "CMake binary dir '".to_owned();
                m.append(binary_dir.as_str());
                m.append("' is outside repo '");
                m.append(repo.as_str());
                m.append("'");
                m
            },
            CompileCommandsError::NoDirectoryName(dir) => {
                let mut m = "Invalid first component in CMake binary dir '".to_owned();
                m.append(dir.as_str());
                m.append("'");
                m
            },
        }
    }
}

/// What a compilation database is made from: the options and the project files.
pub open spec fn input_hash(options: Seq<Seq<char>>, projects: Seq<Seq<char>>) -> HashType {
    hash::hash_of(hash::list_parts(options) + projects)
}

/// The hash of what a compilation database is made from.
pub fn calculate_compile_commands_input_hash(options: &Vec<String>, projects: &Vec<String>) -> (r:
    HashType)
    ensures
        r == input_hash(text::texts(options@), text::texts(projects@)),
{
    let mut parts: Vec<String> = Vec::new();
    hash::append_list(&mut parts, options);
    assert(text::texts(parts@) =~= hash::list_parts(text::texts(options@)));
    text::append_texts(&mut parts, projects);
    hash::hash_texts(&parts)
}

/// How many members `serde_json` finds in a JSON list, where a text is one.
pub uninterp spec fn json_list_len(content: Seq<char>) -> Option<usize>;

/// `serde_json::from_str` as a list of values: how many there are.
#[verifier::external_body]
fn json_list(content: &str) -> (r: Option<usize>)
    ensures
        r == json_list_len(content@),
{
    serde_json::from_str::<Vec<serde_json::Value>>(content).ok().map(|list| list.len())
}

/// A text without a byte order mark at its start.
pub open spec fn without_mark(content: Seq<char>) -> Seq<char> {
    match text::after_prefix(content, "\u{feff}"@) {
        Some(rest) => rest,
        None => content,
    }
}

/// Whether a compilation database has a given number of entries.
pub fn check_entry_count(entries: Option<usize>) -> (r: Result<(), CompileCommandsError>)
    ensures
        match entries {
            None => r matches Err(e) && e is Malformed,
            Some(n) => if n == 0 {
                r matches Err(e) && e is Empty
            } else {
                r is Ok
            },
        },
{
    match entries {
        None => Err(CompileCommandsError::Malformed),
        Some(n) => if n == 0 {
            Err(CompileCommandsError::Empty)
        } else {
            Ok(())
        },
    }
}

/// Whether some text is a compilation database with entries.
pub fn check_compile_commands_text(content: &str) -> (r: Result<(), CompileCommandsError>)
    ensures
        match json_list_len(without_mark(content@)) {
            None => r matches Err(e) && e is Malformed,
            Some(n) => if n == 0 {
                r matches Err(e) && e is Empty
            } else {
                r is Ok
            },
        },
{
    let entries = match text::strip_prefix(content, "\u{feff}") {
        Some(rest) => json_list(rest.as_str()),
        None => json_list(content),
    };
    check_entry_count(entries)
}

/// What comes of checking that a database is a JSON list with members.
pub open spec fn is_checked(bytes: Seq<u8>, r: Result<(), CompileCommandsError>) -> bool {
    match cmake_presets::json_file_text(bytes) {
        None => r matches Err(e) && e is Undecodable,
        Some((content, _)) => match json_list_len(without_mark(content)) {
            None => r matches Err(e) && e is Malformed,
            Some(n) => if n == 0 {
                r matches Err(e) && e is Empty
            } else {
                r is Ok
            },
        },
    }
}

/// Whether a file is a compilation database with entries.
pub fn ensure_compile_commands_not_empty(bytes: &Vec<u8>) -> (r: Result<(), CompileCommandsError>)
    ensures
        is_checked(bytes@, r),
{
    match cmake_presets::read_json_file_to_string(bytes) {
        Ok((content, _malformed)) => check_compile_commands_text(content.as_str()),
        Err(e) => Err(CompileCommandsError::Undecodable(e)),
    }
}

/// Where the compilation database of a repository is, and where it is to be.
pub struct PublishPlan {
    pub source_path: String,
    pub publish_path: String,
    /// Whether it is to be copied: it is not where it is there already.
    pub copy: bool,
}

/// The directory that the compilation database of a repository is to be in: the outermost one
/// of the binary directory below the repository, or the repository.
pub open spec fn publish_dir(
    style: char,
    repo: Seq<char>,
    relative: Seq<char>,
) -> Option<Seq<char>> {
    match paths::first_component(style, relative) {
        None => Some(repo),
        Some(Some(name)) => Some(paths::joined_path(style, repo, name)),
        Some(None) => None,
    }
}

/// A repository can publish its compilation database: its binary directory is inside it.
pub open spec fn can_publish(
    context: PathContext,
    repo_dir: Seq<char>,
    cmake_binary_dir: Seq<char>,
) -> bool {
    let style = context.style_view();
    let repo = context.absolute(repo_dir);
    paths::path_below(style, context.absolute(cmake_binary_dir), repo) matches Some(relative)
        && publish_dir(style, repo, relative) is Some
}

/// This is where the compilation database of a repository is, and where it is to be; or why it can
/// be nowhere.
pub open spec fn is_publication(
    context: PathContext,
    repo_dir: Seq<char>,
    cmake_binary_dir: Seq<char>,
    r: Result<PublishPlan, CompileCommandsError>,
) -> bool {
    let style = context.style_view();
    let repo = context.absolute(repo_dir);
    let binary = context.absolute(cmake_binary_dir);
    match paths::path_below(style, binary, repo) {
        None => r matches Err(e) && e matches CompileCommandsError::OutsideRepo {
            binary_dir,
            repo: root,
        } && binary_dir@ == binary && root@ == repo,
        Some(relative) => match publish_dir(style, repo, relative) {
            None => r matches Err(e) && e matches CompileCommandsError::NoDirectoryName(dir)
                && dir@ == binary,
            Some(dir) => {
                let source = paths::joined_path(style, binary, "compile_commands.json"@);
                let target = paths::joined_path(style, dir, "compile_commands.json"@);
                &&& r matches Ok(plan)
                &&& plan.source_path@ == source
                &&& plan.publish_path@ == target
                &&& plan.copy == !(source == target || paths::same_path(style, source, target))
            },
        },
    }
}

/// Publishes the compilation database of a repository: it is to be copied where it is to be,
/// unless it is there already; but one that is no list with entries is not published.
pub fn publish_compile_commands(
    context: &PathContext,
    repo_dir: &str,
    cmake_binary_dir: &str,
    database: &Vec<u8>,
) -> (r: Result<PublishPlan, CompileCommandsError>)
    ensures
        if can_publish(*context, repo_dir@, cmake_binary_dir@) {
            match r {
                Ok(_) => is_checked(database@, Ok(())) && is_publication(
                    *context,
                    repo_dir@,
                    cmake_binary_dir@,
                    r,
                ),
                Err(e) => is_checked(database@, Err(e)),
            }
        } else {
            r is Err && is_publication(*context, repo_dir@, cmake_binary_dir@, r)
        },
{
    let plan = match plan_publication(context, repo_dir, cmake_binary_dir) {
        Ok(plan) => plan,
        Err(e) => {
            return Err(e);
        },
    };
    match ensure_compile_commands_not_empty(database) {
        Ok(_) => Ok(plan),
        Err(e) => Err(e),
    }
}

/// Where the compilation database of a repository is, and where it is to be.
pub fn plan_publication(
    context: &PathContext,
    repo_dir: &str,
    cmake_binary_dir: &str,
) -> (r: Result<PublishPlan, CompileCommandsError>)
    ensures
        is_publication(*context, repo_dir@, cmake_binary_dir@, r),
{
    let style = context.style();
    let repo = context.absolutize(repo_dir);
    let binary = context.absolutize(cmake_binary_dir);
    let relative = match paths::below(&style, binary.as_str(), repo.as_str()) {
        Some(relative) => relative,
        None => {
            return Err(CompileCommandsError::OutsideRepo { binary_dir: binary, repo });
        },
    };
    let dir = match paths::leading_component(&style, relative.as_str()) {
        None => repo,
        Some(Some(name)) => paths::join(&style, repo.as_str(), name.as_str()),
        Some(None) => {
            return Err(CompileCommandsError::NoDirectoryName(binary));
        },
    };
    let source_path = paths::join(&style, binary.as_str(), "compile_commands.json");
    let publish_path = paths::join(&style, dir.as_str(), "compile_commands.json");
    let copy = !paths::is_same(&style, source_path.as_str(), publish_path.as_str());
    Ok(PublishPlan { source_path, publish_path, copy })
}

/// A compilation database that is made where it is to be, because the binary directory is the
/// repository or a directory right in it, is not copied: it is published as it is.
pub proof fn law_database_in_place_is_not_copied(
    context: PathContext,
    repo_dir: Seq<char>,
    cmake_binary_dir: Seq<char>,
    plan: PublishPlan,
)
    requires
        is_publication(
            context,
            repo_dir,
            cmake_binary_dir,
            Ok::<PublishPlan, CompileCommandsError>(plan),
        ),
        ({
            let style = context.style_view();
            let repo = context.absolute(repo_dir);
            let binary = context.absolute(cmake_binary_dir);
            match paths::first_component(style, paths::path_below(style, binary, repo)->0) {
                None => binary == repo,
                Some(name) => name is Some && binary == paths::joined_path(style, repo, name->0),
            }
        }),
    ensures
        !plan.copy,
        plan.publish_path@ == plan.source_path@,
        plan.source_path@ == paths::joined_path(
            context.style_view(),
            context.absolute(cmake_binary_dir),
            "compile_commands.json"@,
        ),
{
}

/// What a database that was made from this is known by, where it is a list with entries.
pub fn finish_compile_commands(input_hash: HashType, database: &Vec<u8>) -> (r: Result<
    CompileCommandsFingerprint,
    CompileCommandsError,
>)
    ensures
        match r {
            Ok(mark) => is_checked(database@, Ok(())) && mark == (CompileCommandsFingerprint {
                compile_commands_input_hash: input_hash,
                compile_commands_output_hash: hash::hash_of_bytes(database@),
            }),
            Err(e) => is_checked(database@, Err(e)),
        },
{
    match ensure_compile_commands_not_empty(database) {
        Ok(_) => Ok(
            CompileCommandsFingerprint {
                compile_commands_input_hash: input_hash,
                compile_commands_output_hash: hash::hash_bytes(database),
            },
        ),
        Err(e) => Err(e),
    }
}

/// The database was last made from the same and is as it was made then.
pub open spec fn is_up_to_date(
    last: CompileCommandsFingerprint,
    input: HashType,
    output: Option<HashType>,
) -> bool {
    last.compile_commands_input_hash == input && output == Some(last.compile_commands_output_hash)
}

/// Whether a compilation database need not be made: it was made from the same, and what came
/// out is still there.
pub fn should_skip_compile_commands_rebuild(
    last_fingerprint: CompileCommandsFingerprint,
    current_input_hash: HashType,
    current_output_hash: Option<HashType>,
) -> (r: bool)
    ensures
        r == is_up_to_date(last_fingerprint, current_input_hash, current_output_hash),
{
    match current_output_hash {
        Some(current_output_hash) => last_fingerprint.compile_commands_input_hash
            == current_input_hash && last_fingerprint.compile_commands_output_hash
            == current_output_hash,
        None => false,
    }
}

/// What is to be done about the compilation database of a solution.
pub enum CompileCommandsPlan {
    /// Nothing: the fingerprint stays.
    Keep(CompileCommandsFingerprint),
    /// The hashes are to be compared, and perhaps the script to be run.
    Check {
        script_path: String,
        /// The absolute path of the solution.
        sln_path: String,
        /// The compilation database.
        json_path: String,
        last: CompileCommandsFingerprint,
    },
}

/// The directory of a solution.
pub open spec fn solution_dir(style: char, sln_path: Seq<char>) -> Seq<char> {
    match paths::parent_path(style, sln_path) {
        Some(dir) => dir,
        None => "."@,
    }
}

/// What is to be done about the compilation database of a solution.
pub fn make_compile_commands(
    context: &PathContext,
    clang_build_script_path: &Result<String, String>,
    input: &CompileCommandsInput<'_>,
    last_fingerprint: &Option<CompileCommandsFingerprint>,
) -> (r: Result<CompileCommandsPlan, CompileCommandsError>)
    ensures
        ({
            let last = match *last_fingerprint {
                Some(last) => last,
                None => CompileCommandsFingerprint {
                    compile_commands_input_hash: 0,
                    compile_commands_output_hash: 0,
                },
            };
            if !input.compile_commands_config.enabled || input.sln_path is None {
                r matches Ok(plan) && plan == CompileCommandsPlan::Keep(last)
            } else {
                match *clang_build_script_path {
                    Err(why) => r matches Err(e) && e matches CompileCommandsError::NoScript(s)
                        && s@ == why@,
                    Ok(script) => {
                        let full = context.absolute(input.sln_path->0@);
                        let style = context.style_view();
                        &&& r matches Ok(plan)
                        &&& plan matches CompileCommandsPlan::Check {
                            script_path,
                            sln_path,
                            json_path,
                            last: l,
                        }
                        &&& script_path@ == script@
                        &&& sln_path@ == full
                        &&& json_path@ == paths::joined_path(
                            style,
                            solution_dir(style, full),
                            "compile_commands.json"@,
                        )
                        &&& l == last
                    },
                }
            }
        }),
{
    let last = match last_fingerprint {
        Some(last) => *last,
        None => CompileCommandsFingerprint::default(),
    };
    if !input.compile_commands_config.enabled {
        return Ok(CompileCommandsPlan::Keep(last));
    }
    let sln_path = match &input.sln_path {
        Some(sln_path) => sln_path,
        None => {
            return Ok(CompileCommandsPlan::Keep(last));
        },
    };
    let script_path = match clang_build_script_path {
        Ok(script) => script.clone(),
        Err(why) => {
            return Err(CompileCommandsError::NoScript(why.clone()));
        },
    };
    let style = context.style();
    let full = context.absolutize(sln_path.as_str());
    let dir = match paths::parent(&style, full.as_str()) {
        Some(dir) => dir,
        None => ".".to_owned(),
    };
    let json_path = paths::join(&style, dir.as_str(), "compile_commands.json");
    Ok(CompileCommandsPlan::Check { script_path, sln_path: full, json_path, last })
}

/// A database that was made from what it is made from now, and was not touched since, is kept.
pub proof fn law_unchanged_database_is_kept(
    options: Seq<Seq<char>>,
    projects: Seq<Seq<char>>,
    database: Seq<u8>,
)
    ensures
        is_up_to_date(
            CompileCommandsFingerprint {
                compile_commands_input_hash: input_hash(options, projects),
                compile_commands_output_hash: hash::hash_of_bytes(database),
            },
            input_hash(options, projects),
            Some(hash::hash_of_bytes(database)),
        ),
{
}

/// A database that is not there is made.
pub proof fn law_missing_database_is_made(last: CompileCommandsFingerprint, input: HashType)
    ensures
        !is_up_to_date(last, input, None),
{
}

/// What a compilation database is made from tells its options and the contents of the projects
/// apart: it is hashed from the same bytes exactly where both are the same.
pub proof fn law_changed_inputs_make_a_new_database(
    options: &Vec<String>,
    projects: &Vec<String>,
    x: HashType,
    other_options: &Vec<String>,
    other_projects: &Vec<String>,
    y: HashType,
    database: Option<HashType>,
    last: CompileCommandsFingerprint,
    skip: bool,
)
    requires
        call_ensures(calculate_compile_commands_input_hash, (options, projects), x),
        call_ensures(calculate_compile_commands_input_hash, (other_options, other_projects), y),
        last.compile_commands_input_hash == x,
        call_ensures(should_skip_compile_commands_rebuild, (last, y, database), skip),
    ensures
        hash::rest_on_same(
            x,
            y,
            text::texts(options@) == text::texts(other_options@) && text::texts(projects@)
                == text::texts(other_projects@),
        ),
        skip <==> x == y && (database matches Some(h) && h == last.compile_commands_output_hash),
{
    let a = text::texts(options@);
    let b = text::texts(other_options@);
    let s = text::texts(projects@);
    let t = text::texts(other_projects@);
    hash::lemma_rest_on_same(hash::list_parts(a) + s, hash::list_parts(b) + t);
    hash::lemma_list_parts(a, s, b, t);
}

/// A database is known by what it was made from and by its bytes.
pub proof fn law_databases_are_told_apart(
    input: HashType,
    a: &Vec<u8>,
    b: &Vec<u8>,
    x: CompileCommandsFingerprint,
    y: CompileCommandsFingerprint,
)
    requires
        call_ensures(
            finish_compile_commands,
            (input, a),
            Ok::<CompileCommandsFingerprint, CompileCommandsError>(x),
        ),
        call_ensures(
            finish_compile_commands,
            (input, b),
            Ok::<CompileCommandsFingerprint, CompileCommandsError>(y),
        ),
    ensures
        x.compile_commands_input_hash == input,
        hash::rest_on_same(
            x.compile_commands_output_hash,
            y.compile_commands_output_hash,
            a@ == b@,
        ),
{
    hash::lemma_bytes_apart(a@, b@);
}

/// A text is a database with entries exactly where it is a JSON list with members, and a byte
/// order mark before it makes no difference.
pub proof fn law_databases_have_entries(
    content: &str,
    marked: &str,
    r: Result<(), CompileCommandsError>,
    s: Result<(), CompileCommandsError>,
)
    requires
        marked@ == "\u{feff}"@ + content@,
        !text::begins_with(content@, "\u{feff}"@),
        call_ensures(check_compile_commands_text, (content,), r),
        call_ensures(check_compile_commands_text, (marked,), s),
    ensures
        r is Ok <==> (json_list_len(content@) matches Some(n) && n > 0),
        s is Ok <==> r is Ok,
        json_list_len(content@) == Some(0usize) ==> r == Err::<(), CompileCommandsError>(
            CompileCommandsError::Empty,
        ),
        json_list_len(content@) is None ==> r == Err::<(), CompileCommandsError>(
            CompileCommandsError::Malformed,
        ),
{
    let mark = "\u{feff}"@;
    assert(marked@.take(mark.len() as int) =~= mark);
    assert(marked@.skip(mark.len() as int) =~= content@);
}

/// A database is published in the outermost directory below the repository that the binary
/// directory is in, or in the repository where that is the binary directory; it is copied exactly
/// where it is not there already.
pub proof fn law_databases_are_published(
    context: &PathContext,
    repo_dir: &str,
    binary_dir: &str,
    plan: PublishPlan,
)
    requires
        call_ensures(
            plan_publication,
            (context, repo_dir, binary_dir),
            Ok::<PublishPlan, CompileCommandsError>(plan),
        ),
    ensures
        ({
            let style = context.style_view();
            let repo = context.absolute(repo_dir@);
            let binary = context.absolute(binary_dir@);
            &&& paths::path_below(style, binary, repo) is Some
            &&& plan.source_path@ == paths::joined_path(style, binary, "compile_commands.json"@)
            &&& match paths::first_component(style, paths::path_below(style, binary, repo)->0) {
                None => plan.publish_path@ == paths::joined_path(
                    style,
                    repo,
                    "compile_commands.json"@,
                ),
                Some(name) => name is Some && plan.publish_path@ == paths::joined_path(
                    style,
                    paths::joined_path(style, repo, name->0),
                    "compile_commands.json"@,
                ),
            }
            &&& plan.copy <==> plan.source_path@ != plan.publish_path@ && !paths::same_path(
                style,
                plan.source_path@,
                plan.publish_path@,
            )
        }),
{
}

/// Where databases are wanted and there is a solution, the one beside the solution is checked;
/// otherwise nothing changes.
pub proof fn law_database_stands_beside_the_solution(
    context: &PathContext,
    script: &Result<String, String>,
    input: &CompileCommandsInput<'_>,
    last: &Option<CompileCommandsFingerprint>,
    r: Result<CompileCommandsPlan, CompileCommandsError>,
)
    requires
        call_ensures(make_compile_commands, (context, script, input, last), r),
    ensures
        ({
            let wanted = input.compile_commands_config.enabled && input.sln_path is Some;
            &&& !wanted ==> (r matches Ok(CompileCommandsPlan::Keep(mark)) && (*last is Some
                ==> mark == last->0))
            &&& wanted && *script is Err ==> r is Err
            &&& wanted && *script is Ok ==> {
                &&& r matches Ok(CompileCommandsPlan::Check { script_path, sln_path, json_path, last: l })
                &&& script_path@ == script->Ok_0@
                &&& sln_path@ == context.absolute(input.sln_path->0@)
                &&& paths::parent_path(context.style_view(), sln_path@) matches Some(dir)
                    ==> json_path@ == paths::joined_path(
                    context.style_view(),
                    dir,
                    "compile_commands.json"@,
                )
                &&& paths::parent_path(context.style_view(), sln_path@) is None ==> json_path@
                    == paths::joined_path(context.style_view(), "."@, "compile_commands.json"@)
                &&& *last is Some ==> l == last->0
            }
        }),
{
}

/// A file is a database with entries exactly where it can be read and its text is one.
pub proof fn law_database_files_are_checked(
    bytes: &Vec<u8>,
    content: Result<(String, bool), EncodingError>,
    text: &str,
    of_text: Result<(), CompileCommandsError>,
    r: Result<(), CompileCommandsError>,
)
    requires
        call_ensures(ensure_compile_commands_not_empty, (bytes,), r),
        call_ensures(cmake_presets::read_json_file_to_string, (bytes,), content),
        content matches Ok(found) ==> found.0@ == text@,
        call_ensures(check_compile_commands_text, (text,), of_text),
    ensures
        r is Ok <==> content is Ok && of_text is Ok,
{
}

/// A database can be published exactly where the binary directory is inside the repository and
/// it has entries.
pub proof fn law_databases_can_be_published(
    context: &PathContext,
    repo_dir: &str,
    binary_dir: &str,
    database: &Vec<u8>,
    checked: Result<(), CompileCommandsError>,
    plan: Result<PublishPlan, CompileCommandsError>,
    r: Result<PublishPlan, CompileCommandsError>,
)
    requires
        call_ensures(ensure_compile_commands_not_empty, (database,), checked),
        call_ensures(plan_publication, (context, repo_dir, binary_dir), plan),
        call_ensures(publish_compile_commands, (context, repo_dir, binary_dir, database), r),
    ensures
        ({
            let style = context.style_view();
            let below = paths::path_below(
                style,
                context.absolute(binary_dir@),
                context.absolute(repo_dir@),
            );
            &&& plan is Ok <==> below is Some && paths::first_component(style, below->0) != Some(
                None::<Seq<char>>,
            )
            &&& r is Ok <==> plan is Ok && checked is Ok
            &&& r matches Ok(published) ==> published.source_path@ == plan->Ok_0.source_path@
                && published.publish_path@ == plan->Ok_0.publish_path@ && published.copy
                == plan->Ok_0.copy
        }),
{
}

/// What a database was made from is kept exactly where the database has entries.
pub proof fn law_only_databases_with_entries_are_finished(
    input: HashType,
    database: &Vec<u8>,
    checked: Result<(), CompileCommandsError>,
    r: Result<CompileCommandsFingerprint, CompileCommandsError>,
)
    requires
        call_ensures(ensure_compile_commands_not_empty, (database,), checked),
        call_ensures(finish_compile_commands, (input, database), r),
    ensures
        r is Ok <==> checked is Ok,
{
}

} // verus!
