//! Building and installing a repository with CMake.

use crate::build_fix::FixActionResult;
use crate::error::{Error, FileText};
use crate::paths::{self, PathStyle};
use crate::task::TaskMeta;
use crate::text;
use crate::text_laws;
use vstd::prelude::*;

verus! {

/// How many jobs a build runs at once.
#[derive(Clone, Copy, PartialEq, Eq, Structural, Debug)]
pub enum CMakeBuildParallel {
    /// As the build tool likes.
    Disabled,
    /// As many as CMake likes.
    Auto,
    /// This many.
    Jobs(usize),
}

impl Default for CMakeBuildParallel {
    fn default() -> (r: Self)
        ensures
            r == CMakeBuildParallel::Disabled,
    {
        CMakeBuildParallel::Disabled
    }
}

/// A setting for the number of jobs.
#[derive(Clone, Copy)]
pub enum RawCMakeBuildParallel {
    Bool(bool),
    Int(i64),
}

/// A setting for the number of jobs as it is kept.
#[derive(Clone, Copy, PartialEq, Eq, Structural, Debug)]
pub enum StoredCMakeBuildParallel {
    Bool(bool),
    Int(u64),
}

/// The setting for the number of jobs as it is kept.
pub open spec fn stored_parallel(build_parallel: CMakeBuildParallel) -> StoredCMakeBuildParallel {
    match build_parallel {
        CMakeBuildParallel::Disabled => StoredCMakeBuildParallel::Bool(false),
        CMakeBuildParallel::Auto => StoredCMakeBuildParallel::Bool(true),
        CMakeBuildParallel::Jobs(jobs) => StoredCMakeBuildParallel::Int(jobs as u64),
    }
}

/// What a setting means; a number that is not positive means nothing.
pub open spec fn parallel_of(raw: RawCMakeBuildParallel) -> Option<CMakeBuildParallel> {
    match raw {
        RawCMakeBuildParallel::Bool(enabled) => Some(
            if enabled {
                CMakeBuildParallel::Auto
            } else {
                CMakeBuildParallel::Disabled
            },
        ),
        RawCMakeBuildParallel::Int(jobs) => if jobs > 0 {
            Some(CMakeBuildParallel::Jobs(jobs as usize))
        } else {
            None
        },
    }
}

/// A setting as it is read where it was kept like this.
pub open spec fn read_back(stored: StoredCMakeBuildParallel) -> RawCMakeBuildParallel {
    match stored {
        StoredCMakeBuildParallel::Bool(b) => RawCMakeBuildParallel::Bool(b),
        StoredCMakeBuildParallel::Int(n) => RawCMakeBuildParallel::Int(n as i64),
    }
}

/// A number of jobs that is kept is read back, unless it is none or more than fit into the kept
/// form.
pub proof fn law_kept_setting_is_read_back(build_parallel: CMakeBuildParallel)
    requires
        build_parallel matches CMakeBuildParallel::Jobs(jobs) ==> 0 < jobs <= i64::MAX,
    ensures
        parallel_of(read_back(stored_parallel(build_parallel))) == Some(build_parallel),
{
}

impl CMakeBuildParallel {
    /// The setting that means this.
    pub fn to_setting(&self) -> (r: StoredCMakeBuildParallel)
        ensures
            r == stored_parallel(*self),
    {
        match self {
            CMakeBuildParallel::Disabled => StoredCMakeBuildParallel::Bool(false),
            CMakeBuildParallel::Auto => StoredCMakeBuildParallel::Bool(true),
            CMakeBuildParallel::Jobs(jobs) => StoredCMakeBuildParallel::Int(*jobs as u64),
        }
    }

    /// What a setting means; a number that is not positive means nothing and is returned.
    pub fn from_setting(raw: RawCMakeBuildParallel) -> (r: Result<Self, i64>)
        ensures
            match parallel_of(raw) {
                Some(build_parallel) => r == Ok::<Self, i64>(build_parallel),
                None => raw matches RawCMakeBuildParallel::Int(jobs) && r == Err::<Self, i64>(jobs),
            },
    {
        match raw {
            RawCMakeBuildParallel::Bool(enabled) => Ok(
                if enabled {
                    CMakeBuildParallel::Auto
                } else {
                    CMakeBuildParallel::Disabled
                },
            ),
            RawCMakeBuildParallel::Int(jobs) => if jobs > 0 {
                Ok(CMakeBuildParallel::Jobs(jobs as usize))
            } else {
                Err(jobs)
            },
        }
    }
}

/// The arguments that set the number of jobs.
pub open spec fn parallel_args(build_parallel: CMakeBuildParallel) -> Seq<Seq<char>> {
    match build_parallel {
        CMakeBuildParallel::Disabled => Seq::empty(),
        CMakeBuildParallel::Auto => seq!["--parallel"@],
        CMakeBuildParallel::Jobs(jobs) => seq!["--parallel"@, text::decimal_of(jobs as nat)],
    }
}

/// Appends the arguments that set the number of jobs.
pub fn append_parallel_args(arguments: &mut Vec<String>, build_parallel: &CMakeBuildParallel)
    ensures
        text::texts(final(arguments)@) == text::texts(old(arguments)@) + parallel_args(
            *build_parallel,
        ),
{
    match build_parallel {
        CMakeBuildParallel::Disabled => {},
        CMakeBuildParallel::Auto => {
            text::push_text(arguments, "--parallel".to_owned());
        },
        CMakeBuildParallel::Jobs(jobs) => {
            text::push_text(arguments, "--parallel".to_owned());
            text::push_text(arguments, text::decimal(*jobs));
        },
    }
    assert(text::texts(arguments@) =~= text::texts(old(arguments)@) + parallel_args(
        *build_parallel,
    ));
}

/// A repository to build and install.
pub struct BuildInstallInput {
    pub repo_path: String,
    pub build_config: String,
    pub need_install: bool,
    pub cmake_pkg_name: String,
    pub install_prefix: String,
    pub cmake_binary_dir: String,
    pub build_parallel: CMakeBuildParallel,
    pub cmake_generator: String,
}

/// What building and installing a repository gives.
pub struct BuildInstallOutput {
    pub cmake_pkg_config_dir: Option<String>,
}

/// Whether a file of an installation may be the configuration of the package: a CMake file
/// whose name contains that of the package, case aside.
pub open spec fn may_configure(style: char, pkg_name: Seq<char>, path: Seq<char>) -> bool {
    &&& paths::path_extension(style, path) matches Some(e) && text::same_ignoring_ascii_case(
        e,
        "cmake"@,
    )
    &&& text::contains_text(lower_file_name(style, path), text::lowercase_of(pkg_name))
}

/// The name of a file in lower case.
pub open spec fn lower_file_name(style: char, path: Seq<char>) -> Seq<char> {
    match paths::path_file_name(style, path) {
        Some(name) => text::lowercase_of(name),
        None => Seq::empty(),
    }
}

/// The file is called a configuration.
pub open spec fn is_called_config(style: char, path: Seq<char>) -> bool {
    text::contains_text(lower_file_name(style, path), "config"@)
}

/// The directory of the first file that may configure the package and is called a
/// configuration; `from` is where to look first.
pub open spec fn config_dir_from(
    style: char,
    pkg_name: Seq<char>,
    files: Seq<Seq<char>>,
    from: int,
) -> Option<Seq<char>>
    decreases files.len() - from,
{
    if from >= files.len() {
        None
    } else if may_configure(style, pkg_name, files[from]) && is_called_config(
        style,
        files[from],
    ) {
        Some(
            match paths::parent_path(style, files[from]) {
                Some(dir) => dir,
                None => Seq::empty(),
            },
        )
    } else {
        config_dir_from(style, pkg_name, files, from + 1)
    }
}

/// The directory of the first file that may configure the package and has one.
pub open spec fn any_dir_from(
    style: char,
    pkg_name: Seq<char>,
    files: Seq<Seq<char>>,
    from: int,
) -> Option<Seq<char>>
    decreases files.len() - from,
{
    if from >= files.len() {
        None
    } else if may_configure(style, pkg_name, files[from]) && paths::parent_path(
        style,
        files[from],
    ) is Some {
        paths::parent_path(style, files[from])
    } else {
        any_dir_from(style, pkg_name, files, from + 1)
    }
}

/// The directory that holds the configuration of a package: that of the first file that is
/// called so, otherwise that of the first file that may be it.
pub open spec fn config_dir(
    style: char,
    pkg_name: Seq<char>,
    files: Seq<Seq<char>>,
) -> Option<Seq<char>> {
    match config_dir_from(style, pkg_name, files, 0) {
        Some(dir) => Some(dir),
        None => any_dir_from(style, pkg_name, files, 0),
    }
}

/// The directory that holds the configuration of a package, among the files of an installation
/// in the order in which they are found.
pub fn find_cmake_config_dir(style: &PathStyle, files: &Vec<String>, pkg_name: &str) -> (r: Option<
    String,
>)
    ensures
        text::opt_text(r) == config_dir(style@, pkg_name@, text::texts(files@)),
{
    let ghost all = text::texts(files@);
    let pkg_lower = text::to_lowercase(pkg_name);
    let mut fallback: Option<String> = None;
    for i in 0..files.len()
        invariant
            all == text::texts(files@),
            pkg_lower@ == text::lowercase_of(pkg_name@),
            config_dir_from(style@, pkg_name@, all, 0) == config_dir_from(
                style@,
                pkg_name@,
                all,
                i as int,
            ),
            match fallback {
                Some(dir) => any_dir_from(style@, pkg_name@, all, 0) == Some(dir@),
                None => any_dir_from(style@, pkg_name@, all, 0) == any_dir_from(
                    style@,
                    pkg_name@,
                    all,
                    i as int,
                ),
            },
    {
        assert(all[i as int] == files@[i as int]@);
        let path = files[i].as_str();
        let is_cmake = match paths::extension(style, path) {
            Some(e) => text::eq_ignore_ascii_case(e.as_str(), "cmake"),
            None => false,
        };
        if is_cmake {
            let name = match paths::file_name(style, path) {
                Some(name) => text::to_lowercase(name.as_str()),
                None => String::new(),
            };
            if text::contains(name.as_str(), pkg_lower.as_str()) {
                let parent = paths::parent(style, path);
                if text::contains(name.as_str(), "config") {
                    return match parent {
                        Some(dir) => Some(dir),
                        None => Some(String::new()),
                    };
                }
                if fallback.is_none() {
                    fallback = parent;
                }
            }
        }
    }
    fallback
}

/// The list of installed files, as far as it could be read.
pub fn load_install_manifest_txt(file: FileText) -> (r: Result<String, ManifestError>)
    ensures
        match (file, r) {
            (FileText::Text(t), Ok(content)) => content == t,
            (FileText::Missing, Err(e)) => e is Missing,
            (FileText::Unreadable, Err(e)) => e is Unreadable,
            _ => false,
        },
{
    match file {
        FileText::Text(content) => Ok(content),
        FileText::Missing => Err(ManifestError::Missing),
        FileText::Unreadable => Err(ManifestError::Unreadable),
    }
}

/// Why the list of installed files cannot be used.
#[derive(Debug)]
pub enum ManifestError {
    /// There is none.
    Missing,
    /// It cannot be read.
    Unreadable,
}

/// A configuration file for the build, and the one for release builds to make from it.
pub struct SupplementFile {
    pub source: String,
    pub target: String,
}

/// Why no configuration file for release builds can be made.
#[derive(Debug)]
pub enum SupplementError {
    /// The path has no file name.
    NoFileName(String),
    /// The file name is shorter than what marks the configuration, or that takes up a part of a
    /// character of it.
    NameTooShort(String),
    /// The path has no directory.
    NoParent(String),
}

/// What is to be done for a line of the list of installed files.
pub enum SupplementStep {
    File { source: Seq<char>, target: Seq<char> },
    NoFileName(Seq<char>),
    NameTooShort(Seq<char>),
    NoParent(Seq<char>),
}

/// What marks the configuration files of a build configuration.
pub open spec fn config_suffix(build_config: Seq<char>) -> Seq<char> {
    "-"@ + text::lowercase_of(build_config) + ".cmake"@
}

/// What is to be done for a line: nothing, unless it is a file for the build configuration.
pub open spec fn supplement_for(
    style: char,
    line: Seq<char>,
    build_config: Seq<char>,
) -> Option<SupplementStep> {
    let path = text::trim_of(line);
    let suffix = config_suffix(build_config);
    if path.len() == 0 || !text::ends_in(text::lowercase_of(path), suffix) {
        None
    } else {
        match paths::path_file_name(style, path) {
            None => Some(SupplementStep::NoFileName(path)),
            Some(name) => match text::without_bytes(
                name,
                vstd::utf8::encode_utf8(suffix).len(),
            ) {
                None => Some(SupplementStep::NameTooShort(path)),
                Some(base) => match paths::parent_path(style, path) {
                    None => Some(SupplementStep::NoParent(path)),
                    Some(dir) => Some(
                        SupplementStep::File {
                            source: path,
                            target: paths::joined_path(style, dir, base + "-release.cmake"@),
                        },
                    ),
                },
            },
        }
    }
}

impl View for SupplementError {
    type V = SupplementStep;

    open spec fn view(&self) -> SupplementStep {
        match self {
            SupplementError::NoFileName(s) => SupplementStep::NoFileName(s@),
            SupplementError::NameTooShort(s) => SupplementStep::NameTooShort(s@),
            SupplementError::NoParent(s) => SupplementStep::NoParent(s@),
        }
    }
}

/// What is to be done for the first `n` lines, up to the first that cannot be dealt with.
pub open spec fn supplements_for(
    style: char,
    lines: Seq<Seq<char>>,
    build_config: Seq<char>,
    n: int,
) -> (Seq<SupplementStep>, bool)
    decreases n,
{
    if n <= 0 {
        (Seq::empty(), false)
    } else {
        let (before, stopped) = supplements_for(style, lines, build_config, n - 1);
        if stopped {
            (before, true)
        } else {
            match supplement_for(style, lines[n - 1], build_config) {
                None => (before, false),
                Some(step) => (before.push(step), !(step is File)),
            }
        }
    }
}

/// What is to be done: in order, files to make, and at the end perhaps what went wrong.
pub open spec fn step_view(r: Result<SupplementFile, SupplementError>) -> SupplementStep {
    match r {
        Ok(file) => SupplementStep::File { source: file.source@, target: file.target@ },
        Err(e) => e@,
    }
}

/// The content of every step of a list.
pub open spec fn step_views(list: Seq<Result<SupplementFile, SupplementError>>) -> Seq<
    SupplementStep,
> {
    Seq::new(list.len(), |i: int| step_view(list[i]))
}

/// What is to be done for a line of the list of installed files.
fn read_supplement(style: &PathStyle, line: &str, suffix: &str) -> (r: Option<
    Result<SupplementFile, SupplementError>,
>)
    ensures
        forall|build_config: Seq<char>| #[trigger]
            config_suffix(build_config) == suffix@ ==> supplement_for(style@, line@, build_config)
                == (match r {
                Some(step) => Some(step_view(step)),
                None => None,
            }),
{
    let path = text::trim(line);
    if text::is_empty(path.as_str()) || !text::ends_with(
        text::to_lowercase(path.as_str()).as_str(),
        suffix,
    ) {
        return None;
    }
    let name = match paths::file_name(style, path.as_str()) {
        Some(name) => name,
        None => {
            return Some(Err(SupplementError::NoFileName(path)));
        },
    };
    let mut target = match text::cut_bytes(name.as_str(), suffix.as_bytes().len()) {
        Some(base) => base,
        None => {
            return Some(Err(SupplementError::NameTooShort(path)));
        },
    };
    let dir = match paths::parent(style, path.as_str()) {
        Some(dir) => dir,
        None => {
            return Some(Err(SupplementError::NoParent(path)));
        },
    };
    target.append("-release.cmake");
    let target = paths::join(style, dir.as_str(), target.as_str());
    Some(Ok(SupplementFile { source: path, target }))
}

/// Whether a build of this configuration needs configuration files for release builds beside its
/// own: release and debug builds do not.
pub fn needs_release_config(build_config: &str) -> (r: bool)
    ensures
        r == !(build_config@ == "Release"@ || build_config@ == "Debug"@),
{
    !(text::same_text(build_config, "Release") || text::same_text(build_config, "Debug"))
}

/// What is to be done so that release builds find the configuration files of another build
/// configuration: nothing for the configurations that have their own; otherwise, in order,
/// files to make, and at the end perhaps what went wrong.
pub fn supplement_other_cmake_config(
    style: &PathStyle,
    install_manifest: &str,
    build_config: &str,
) -> (r: Vec<Result<SupplementFile, SupplementError>>)
    ensures
        ({
            let lines = text::lines_of(install_manifest@);
            step_views(r@) == (if build_config@ == "Release"@ || build_config@ == "Debug"@ {
                Seq::empty()
            } else {
                supplements_for(style@, lines, build_config@, lines.len() as int).0
            })
        }),
{
    let mut out: Vec<Result<SupplementFile, SupplementError>> = Vec::new();
    assert(step_views(out@) =~= Seq::empty());
    if !needs_release_config(build_config) {
        return out;
    }
    let mut suffix = "-".to_owned();
    suffix.append(text::to_lowercase(build_config).as_str());
    suffix.append(".cmake");
    let lines = text::lines(install_manifest);
    let ghost all = text::texts(lines@);
    for i in 0..lines.len()
        invariant
            all == text::texts(lines@),
            all == text::lines_of(install_manifest@),
            build_config@ != "Release"@ && build_config@ != "Debug"@,
            suffix@ == config_suffix(build_config@),
            supplements_for(style@, all, build_config@, i as int) == (step_views(out@), false),
    {
        assert(all[i as int] == lines@[i as int]@);
        if let Some(step) = read_supplement(style, lines[i].as_str(), suffix.as_str()) {
            let failed = step.is_err();
            let ghost before = out@;
            out.push(step);
            assert(step_views(out@) =~= step_views(before).push(step_view(step)));
            if failed {
                proof {
                    lemma_supplements_stop(
                        style@,
                        all,
                        build_config@,
                        i + 1,
                        all.len() as int,
                    );
                }
                return out;
            }
        }
    }
    out
}

proof fn lemma_supplements_stop(
    style: char,
    lines: Seq<Seq<char>>,
    build_config: Seq<char>,
    k: int,
    n: int,
)
    requires
        0 <= k <= n,
        supplements_for(style, lines, build_config, k).1,
    ensures
        supplements_for(style, lines, build_config, n) == supplements_for(
            style,
            lines,
            build_config,
            k,
        ),
    decreases n - k,
{
    if k < n {
        lemma_supplements_stop(style, lines, build_config, k, n - 1);
    }
}

/// A configuration file for release builds, made from that of another build configuration.
pub open spec fn release_content(content: Seq<char>, build_config: Seq<char>) -> Seq<char> {
    text::replace_of(
        text::replace_of(content, build_config, "Release"@),
        text::uppercase_of(build_config),
        "RELEASE"@,
    )
}

/// The configuration file for release builds, where the present one differs from it. One that
/// is missing counts as empty.
pub fn supplement_content(content: &str, present: &Option<String>, build_config: &str) -> (r: Option<
    String,
>)
    ensures
        ({
            let made = release_content(content@, build_config@);
            text::opt_text(r) == (if made == (match *present {
                Some(p) => p@,
                None => Seq::empty(),
            }) {
                None
            } else {
                Some(made)
            })
        }),
{
    let released = text::replace(content, build_config, "Release");
    let made = text::replace(
        released.as_str(),
        text::to_uppercase(build_config).as_str(),
        "RELEASE",
    );
    let same = match present {
        Some(p) => text::same_text(p.as_str(), made.as_str()),
        None => text::is_empty(made.as_str()),
    };
    if same {
        proof {
            if present is None {
                assert(made@ =~= Seq::empty());
            }
        }
        None
    } else {
        Some(made)
    }
}

/// What happened in a build that is repaired when it fails.
#[derive(Clone, Copy, PartialEq, Eq, Structural)]
pub enum BuildEvent {
    /// It is to begin.
    Started,
    /// The build succeeded.
    Succeeded,
    /// The build could not be run.
    FailedUnexpectedly,
    /// The build ran and failed.
    Failed,
    /// The failure was repaired.
    FixApplied,
    /// No repair is known for the failure.
    FixNotHandled,
    /// The repair failed.
    FixFailed,
}

/// What the answer of the repairers means for the build.
pub fn fix_event(outcome: &Result<FixActionResult, Error>) -> (r: BuildEvent)
    ensures
        r == match *outcome {
            Ok(FixActionResult::Applied) => BuildEvent::FixApplied,
            Ok(FixActionResult::NotHandled) => BuildEvent::FixNotHandled,
            Err(_) => BuildEvent::FixFailed,
        },
{
    match outcome {
        Ok(FixActionResult::Applied) => BuildEvent::FixApplied,
        Ok(FixActionResult::NotHandled) => BuildEvent::FixNotHandled,
        Err(_) => BuildEvent::FixFailed,
    }
}

/// What is to be done next in a build that is repaired when it fails.
#[derive(Clone, Copy, PartialEq, Eq, Structural)]
pub enum BuildStep {
    RunBuild,
    TryFix,
    Done,
    GiveUp(BuildFailure),
}

/// Why a build is given up.
#[derive(Clone, Copy, PartialEq, Eq, Structural)]
pub enum BuildFailure {
    /// It was repaired too often.
    LimitReached,
    /// It could not be run.
    Unexpected,
    /// No repair is known for the failure.
    NotFixed,
    /// The repair failed.
    FixerFailed,
}

/// How often a build is repaired at most.
pub const MAX_FIX_ATTEMPTS: usize = 32;

/// A build that is repaired when it fails.
pub struct BuildLoop {
    attempt: usize,
}

impl BuildLoop {
    /// The failures so far are within the limit.
    #[verifier::type_invariant]
    spec fn within_limit(self) -> bool {
        self.attempt <= MAX_FIX_ATTEMPTS
    }

    /// How often the build has failed.
    pub closed spec fn attempts(self) -> int {
        self.attempt as int
    }

    /// A build that has not failed yet.
    pub fn new() -> (r: Self)
        ensures
            r.attempts() == 0,
    {
        BuildLoop { attempt: 0 }
    }

    /// How often the build has failed: no more than the limit.
    pub fn attempt(&self) -> (r: usize)
        ensures
            r == self.attempts(),
            r <= MAX_FIX_ATTEMPTS,
    {
        proof {
            use_type_invariant(self);
        }
        self.attempt
    }

    /// What is to be done after an event.
    pub fn next_step(&mut self, event: BuildEvent) -> (r: BuildStep)
        ensures
            (r, final(self).attempts()) == after_event(old(self).attempts(), event),
    {
        proof {
            use_type_invariant(&*self);
        }
        match event {
            BuildEvent::Started | BuildEvent::FixApplied => {
                if self.attempt >= MAX_FIX_ATTEMPTS {
                    BuildStep::GiveUp(BuildFailure::LimitReached)
                } else {
                    BuildStep::RunBuild
                }
            },
            BuildEvent::Succeeded => BuildStep::Done,
            BuildEvent::FailedUnexpectedly => BuildStep::GiveUp(BuildFailure::Unexpected),
            BuildEvent::Failed => {
                if self.attempt < MAX_FIX_ATTEMPTS {
                    self.attempt = self.attempt + 1;
                }
                BuildStep::TryFix
            },
            BuildEvent::FixNotHandled => BuildStep::GiveUp(BuildFailure::NotFixed),
            BuildEvent::FixFailed => BuildStep::GiveUp(BuildFailure::FixerFailed),
        }
    }
}

/// What is to be done after an event, and how often the build has failed then. A build runs
/// only while it has failed less often than the limit, so its failure never passes that.
pub open spec fn after_event(attempts: int, event: BuildEvent) -> (BuildStep, int) {
    match event {
        BuildEvent::Started | BuildEvent::FixApplied => (
            if attempts >= MAX_FIX_ATTEMPTS {
                BuildStep::GiveUp(BuildFailure::LimitReached)
            } else {
                BuildStep::RunBuild
            },
            attempts,
        ),
        BuildEvent::Succeeded => (BuildStep::Done, attempts),
        BuildEvent::FailedUnexpectedly => (
            BuildStep::GiveUp(BuildFailure::Unexpected),
            attempts,
        ),
        BuildEvent::Failed => (
            BuildStep::TryFix,
            if attempts < MAX_FIX_ATTEMPTS {
                attempts + 1
            } else {
                attempts
            },
        ),
        BuildEvent::FixNotHandled => (BuildStep::GiveUp(BuildFailure::NotFixed), attempts),
        BuildEvent::FixFailed => (BuildStep::GiveUp(BuildFailure::FixerFailed), attempts),
    }
}

/// Whether every failure so far was repaired: the build ran, failed and was repaired `n` times.
pub open spec fn after_repairs(n: nat) -> int
    decreases n,
{
    if n == 0 {
        0
    } else {
        after_event(
            after_event(after_repairs((n - 1) as nat), BuildEvent::Failed).1,
            BuildEvent::FixApplied,
        ).1
    }
}

proof fn lemma_after_repairs(n: nat)
    ensures
        after_repairs(n) == if n < MAX_FIX_ATTEMPTS {
            n as int
        } else {
            MAX_FIX_ATTEMPTS as int
        },
    decreases n,
{
    if n > 0 {
        lemma_after_repairs((n - 1) as nat);
    }
}

/// A build that goes on failing and being repaired is run again until the limit, and given up
/// then.
pub proof fn law_repairs_are_limited(n: nat)
    ensures
        n < MAX_FIX_ATTEMPTS ==> after_event(after_repairs(n), BuildEvent::FixApplied).0
            == BuildStep::RunBuild,
        n >= MAX_FIX_ATTEMPTS ==> after_event(after_repairs(n), BuildEvent::FixApplied).0
            == BuildStep::GiveUp(BuildFailure::LimitReached),
{
    lemma_after_repairs(n);
}

/// Whether linker failures of the build are repaired: only those of Visual Studio are.
pub fn repairs_linker_failures(cmake_generator: &str) -> (r: bool)
    ensures
        r == text::contains_text(cmake_generator@, "Visual Studio"@),
{
    text::contains(cmake_generator, "Visual Studio")
}

/// How a repository is to be built and installed.
pub struct BuildInstallPlan {
    /// The binary directory, from the root of the repository.
    pub rel_binary_prefix: String,
    /// The arguments that CMake builds with.
    pub build_arguments: Vec<String>,
    /// The arguments that CMake installs with, where it is to install.
    pub install_arguments: Option<Vec<String>>,
}

/// The arguments that CMake builds with.
pub open spec fn build_arguments(
    binary_dir: Seq<char>,
    build_config: Seq<char>,
    build_parallel: CMakeBuildParallel,
) -> Seq<Seq<char>> {
    seq!["--build"@, binary_dir, "--config"@, build_config] + parallel_args(build_parallel)
}

/// The arguments that CMake installs with.
pub open spec fn install_arguments(binary_dir: Seq<char>, build_config: Seq<char>) -> Seq<
    Seq<char>,
> {
    seq!["--install"@, binary_dir, "--config"@, build_config]
}

/// How a repository is to be built and installed; `None` where no relative path leads from it to
/// its binary directory.
pub fn build_and_install(style: &PathStyle, input: &BuildInstallInput) -> (r: Option<
    BuildInstallPlan,
>)
    ensures
        match paths::relative_path(style@, input.cmake_binary_dir@, input.repo_path@) {
            None => r is None,
            Some(relative) => {
                &&& r matches Some(plan)
                &&& plan.rel_binary_prefix@ == relative
                &&& text::texts(plan.build_arguments@) == build_arguments(
                    relative,
                    input.build_config@,
                    input.build_parallel,
                )
                &&& match plan.install_arguments {
                    Some(arguments) => input.need_install && text::texts(arguments@)
                        == install_arguments(relative, input.build_config@),
                    None => !input.need_install,
                }
            },
        },
{
    let relative = match paths::diff(
        style,
        input.cmake_binary_dir.as_str(),
        input.repo_path.as_str(),
    ) {
        Some(relative) => relative,
        None => {
            return None;
        },
    };
    let mut build: Vec<String> = Vec::new();
    text::push_text(&mut build, "--build".to_owned());
    text::push_text(&mut build, relative.clone());
    text::push_text(&mut build, "--config".to_owned());
    text::push_text(&mut build, input.build_config.clone());
    assert(text::texts(build@) =~= seq!["--build"@, relative@, "--config"@, input.build_config@]);
    append_parallel_args(&mut build, &input.build_parallel);
    let install = if input.need_install {
        let mut install: Vec<String> = Vec::new();
        text::push_text(&mut install, "--install".to_owned());
        text::push_text(&mut install, relative.clone());
        text::push_text(&mut install, "--config".to_owned());
        text::push_text(&mut install, input.build_config.clone());
        assert(text::texts(install@) =~= install_arguments(relative@, input.build_config@));
        Some(install)
    } else {
        None
    };
    Some(
        BuildInstallPlan {
            rel_binary_prefix: relative,
            build_arguments: build,
            install_arguments: install,
        },
    )
}

/// The directory of programs to look for the build tool in: the one for 32 bit where there is
/// one.
pub fn program_files(for_32_bit: Option<String>, native: Option<String>) -> (r: Option<String>)
    ensures
        r == (match for_32_bit {
            Some(dir) => Some(dir),
            None => native,
        }),
{
    match for_32_bit {
        Some(dir) => Some(dir),
        None => native,
    }
}

/// The build tool in the output of the locator of Visual Studio.
pub fn get_ms_build_path(output: &str) -> (r: String)
    ensures
        r@ == text::trim_of(output@),
{
    text::trim(output)
}

/// Builds and installs repositories.
pub struct BuildInstallTask<E> {
    /// The build tool, or why there is none.
    pub ms_build_path: Result<String, String>,
    /// The environment of the developer tools.
    pub vs_dev_env: E,
}

impl<E> BuildInstallTask<E> {
    /// Builds with this build tool and in this environment.
    pub fn new(ms_build_path: Result<String, String>, vs_dev_env: E) -> (r: Self)
        ensures
            r.ms_build_path == ms_build_path,
            r.vs_dev_env == vs_dev_env,
    {
        BuildInstallTask { ms_build_path, vs_dev_env }
    }
}

impl<E> TaskMeta for BuildInstallTask<E> {
    fn id(&self) -> (r: &'static str)
        ensures
            r@ == "build_install"@,
    {
        "build_install"
    }
}

/// A repository is built in its binary directory with its configuration, and with the number of
/// jobs that is set: none is named where none is, and where it is a number, that number in digits
/// is the last argument. It is installed from there exactly where it is to be.
pub proof fn law_builds_follow_the_settings(
    style: &PathStyle,
    input: &BuildInstallInput,
    plan: BuildInstallPlan,
)
    requires
        call_ensures(build_and_install, (style, input), Some(plan)),
    ensures
        ({
            let given = text::texts(plan.build_arguments@);
            &&& paths::relative_path(style@, input.cmake_binary_dir@, input.repo_path@) == Some(
                plan.rel_binary_prefix@,
            )
            &&& given.take(4) == seq![
                "--build"@,
                plan.rel_binary_prefix@,
                "--config"@,
                input.build_config@,
            ]
            &&& match input.build_parallel {
                CMakeBuildParallel::Disabled => given.len() == 4,
                CMakeBuildParallel::Auto => given.len() == 5 && given[4] == "--parallel"@,
                CMakeBuildParallel::Jobs(jobs) => given.len() == 6 && given[4] == "--parallel"@
                    && text_laws::number_of(given[5]) == jobs && forall|i: int|
                    0 <= i < given[5].len() ==> '0' <= #[trigger] given[5][i] <= '9',
            }
        }),
        plan.install_arguments is Some <==> input.need_install,
        plan.install_arguments matches Some(arguments) ==> text::texts(arguments@) == seq![
            "--install"@,
            plan.rel_binary_prefix@,
            "--config"@,
            input.build_config@,
        ],
{
    let given = text::texts(plan.build_arguments@);
    assert(given.take(4) =~= seq![
        "--build"@,
        plan.rel_binary_prefix@,
        "--config"@,
        input.build_config@,
    ]);
    if let CMakeBuildParallel::Jobs(jobs) = input.build_parallel {
        text_laws::law_decimal_notation(jobs as nat);
    }
}

/// Builds with the same arguments are builds in the same directory of the same configuration with
/// the same number of jobs.
pub proof fn law_different_builds_differ(
    style: &PathStyle,
    a: &BuildInstallInput,
    b: &BuildInstallInput,
    x: BuildInstallPlan,
    y: BuildInstallPlan,
)
    requires
        call_ensures(build_and_install, (style, a), Some(x)),
        call_ensures(build_and_install, (style, b), Some(y)),
        text::texts(x.build_arguments@) == text::texts(y.build_arguments@),
    ensures
        x.rel_binary_prefix@ == y.rel_binary_prefix@,
        a.build_config@ == b.build_config@,
        a.build_parallel == b.build_parallel,
{
    law_builds_follow_the_settings(style, a, x);
    law_builds_follow_the_settings(style, b, y);
    let given = text::texts(x.build_arguments@);
    assert(given.take(4)[1] == x.rel_binary_prefix@ && given.take(4)[1] == y.rel_binary_prefix@);
    assert(given.take(4)[3] == a.build_config@ && given.take(4)[3] == b.build_config@);
}

/// A build that fails is tried to be repaired, one that was repaired runs again while it has not
/// failed too often, and every other end of a build or a repair is final.
pub proof fn law_only_repaired_builds_run_again(attempts: int, event: BuildEvent)
    requires
        0 <= attempts <= MAX_FIX_ATTEMPTS,
    ensures
        after_event(attempts, event).0 == BuildStep::Done <==> event == BuildEvent::Succeeded,
        after_event(attempts, event).0 == BuildStep::TryFix <==> event == BuildEvent::Failed,
        after_event(attempts, event).0 == BuildStep::RunBuild <==> (event == BuildEvent::Started
            || event == BuildEvent::FixApplied) && attempts < MAX_FIX_ATTEMPTS,
        after_event(attempts, event).0 == BuildStep::GiveUp(BuildFailure::NotFixed) <==> event
            == BuildEvent::FixNotHandled,
        after_event(attempts, event).0 == BuildStep::GiveUp(BuildFailure::FixerFailed) <==> event
            == BuildEvent::FixFailed,
        after_event(attempts, event).0 == BuildStep::GiveUp(BuildFailure::Unexpected) <==> event
            == BuildEvent::FailedUnexpectedly,
        event != BuildEvent::Failed ==> after_event(attempts, event).1 == attempts,
        event == BuildEvent::Failed && attempts < MAX_FIX_ATTEMPTS ==> after_event(
            attempts,
            event,
        ).1 == attempts + 1,
        MAX_FIX_ATTEMPTS == 32,
{
}

proof fn lemma_config_dir_from(
    style: char,
    pkg_name: Seq<char>,
    files: Seq<Seq<char>>,
    from: int,
    i: int,
)
    requires
        0 <= from <= i < files.len(),
        may_configure(style, pkg_name, files[i]) && is_called_config(style, files[i]),
        forall|j: int|
            from <= j < i ==> !(may_configure(style, pkg_name, #[trigger] files[j])
                && is_called_config(style, files[j])),
    ensures
        config_dir_from(style, pkg_name, files, from) == Some(
            match paths::parent_path(style, files[i]) {
                Some(dir) => dir,
                None => Seq::empty(),
            },
        ),
    decreases i - from,
{
    if from < i {
        lemma_config_dir_from(style, pkg_name, files, from + 1, i);
    }
}

proof fn lemma_no_config_dir(
    style: char,
    pkg_name: Seq<char>,
    files: Seq<Seq<char>>,
    from: int,
)
    requires
        0 <= from,
        forall|j: int|
            from <= j < files.len() ==> !(may_configure(style, pkg_name, #[trigger] files[j])
                && is_called_config(style, files[j])),
    ensures
        config_dir_from(style, pkg_name, files, from) is None,
    decreases files.len() - from,
{
    if from < files.len() {
        lemma_no_config_dir(style, pkg_name, files, from + 1);
    }
}

proof fn lemma_any_dir_from(
    style: char,
    pkg_name: Seq<char>,
    files: Seq<Seq<char>>,
    from: int,
    i: int,
)
    requires
        0 <= from <= i < files.len(),
        may_configure(style, pkg_name, files[i]) && paths::parent_path(style, files[i]) is Some,
        forall|j: int|
            from <= j < i ==> !(may_configure(style, pkg_name, #[trigger] files[j])
                && paths::parent_path(style, files[j]) is Some),
    ensures
        any_dir_from(style, pkg_name, files, from) == paths::parent_path(style, files[i]),
    decreases i - from,
{
    if from < i {
        lemma_any_dir_from(style, pkg_name, files, from + 1, i);
    }
}

proof fn lemma_no_dir(style: char, pkg_name: Seq<char>, files: Seq<Seq<char>>, from: int)
    requires
        0 <= from,
        forall|j: int|
            from <= j < files.len() ==> !(may_configure(style, pkg_name, #[trigger] files[j])
                && paths::parent_path(style, files[j]) is Some),
    ensures
        any_dir_from(style, pkg_name, files, from) is None,
    decreases files.len() - from,
{
    if from < files.len() {
        lemma_no_dir(style, pkg_name, files, from + 1);
    }
}

/// The file at the path is a CMake file, and its name holds the text, the case of letters aside.
pub open spec fn is_cmake_file_about(style: char, path: Seq<char>, lower: Seq<char>) -> bool {
    &&& paths::path_extension(style, path) matches Some(e) && text::same_ignoring_ascii_case(
        e,
        "cmake"@,
    )
    &&& text::contains_text(
        match paths::path_file_name(style, path) {
            Some(name) => text::lowercase_of(name),
            None => Seq::empty(),
        },
        lower,
    )
}

/// The configuration of a package is looked for among the CMake files whose names hold that of the
/// package: the first whose name also holds `config` decides, and where there is none the first
/// that has a directory.
pub proof fn law_package_configuration_is_found(
    style: &PathStyle,
    files: &Vec<String>,
    pkg_name: &str,
    r: Option<String>,
)
    requires
        call_ensures(find_cmake_config_dir, (style, files, pkg_name), r),
    ensures
        ({
            let all = text::texts(files@);
            let name = text::lowercase_of(pkg_name@);
            &&& forall|i: int|
                0 <= i < all.len() && #[trigger] is_cmake_file_about(style@, all[i], name)
                    && is_cmake_file_about(style@, all[i], "config"@) && (forall|j: int|
                    0 <= j < i ==> !(#[trigger] is_cmake_file_about(style@, all[j], name)
                        && is_cmake_file_about(style@, all[j], "config"@))) ==> (r matches Some(dir)
                    && dir@ == (match paths::parent_path(style@, all[i]) {
                    Some(parent) => parent,
                    None => Seq::empty(),
                }))
            &&& (forall|i: int|
                0 <= i < all.len() ==> !(#[trigger] is_cmake_file_about(style@, all[i], name)
                    && is_cmake_file_about(style@, all[i], "config"@))) ==> {
                &&& forall|i: int|
                    0 <= i < all.len() && #[trigger] is_cmake_file_about(style@, all[i], name)
                        && paths::parent_path(style@, all[i]) is Some && (forall|j: int|
                        0 <= j < i ==> !(#[trigger] is_cmake_file_about(style@, all[j], name)
                            && paths::parent_path(style@, all[j]) is Some))
                        ==> text::opt_text(r) == paths::parent_path(style@, all[i])
                &&& (forall|i: int|
                    0 <= i < all.len() ==> !(#[trigger] is_cmake_file_about(style@, all[i], name)
                        && paths::parent_path(style@, all[i]) is Some)) ==> r is None
            }
        }),
{
    let all = text::texts(files@);
    let name = text::lowercase_of(pkg_name@);
    let s = style@;
    assert forall|j: int| 0 <= j < all.len() implies may_configure(
        s,
        pkg_name@,
        #[trigger] all[j],
    ) == is_cmake_file_about(s, all[j], name) && (may_configure(s, pkg_name@, all[j])
        && is_called_config(s, all[j]) <==> is_cmake_file_about(s, all[j], name)
        && is_cmake_file_about(s, all[j], "config"@)) by {}
    assert forall|i: int|
        0 <= i < all.len() && #[trigger] is_cmake_file_about(s, all[i], name)
            && is_cmake_file_about(s, all[i], "config"@) && (forall|j: int|
            0 <= j < i ==> !(#[trigger] is_cmake_file_about(s, all[j], name)
                && is_cmake_file_about(s, all[j], "config"@))) implies (r matches Some(dir)
        && dir@ == (match paths::parent_path(s, all[i]) {
        Some(parent) => parent,
        None => Seq::empty(),
    })) by {
        assert forall|j: int| 0 <= j < i implies !(may_configure(s, pkg_name@, #[trigger] all[j])
            && is_called_config(s, all[j])) by {
            assert(!(is_cmake_file_about(s, all[j], name) && is_cmake_file_about(
                s,
                all[j],
                "config"@,
            )));
        }
        lemma_config_dir_from(s, pkg_name@, all, 0, i);
    }
    if forall|i: int|
        0 <= i < all.len() ==> !(#[trigger] is_cmake_file_about(s, all[i], name)
            && is_cmake_file_about(s, all[i], "config"@)) {
        assert forall|j: int| 0 <= j < all.len() implies !(may_configure(
            s,
            pkg_name@,
            #[trigger] all[j],
        ) && is_called_config(s, all[j])) by {
            assert(!(is_cmake_file_about(s, all[j], name) && is_cmake_file_about(
                s,
                all[j],
                "config"@,
            )));
        }
        lemma_no_config_dir(s, pkg_name@, all, 0);
        assert forall|i: int|
            0 <= i < all.len() && #[trigger] is_cmake_file_about(s, all[i], name)
                && paths::parent_path(s, all[i]) is Some && (forall|j: int|
                0 <= j < i ==> !(#[trigger] is_cmake_file_about(s, all[j], name)
                    && paths::parent_path(s, all[j]) is Some)) implies text::opt_text(r)
            == paths::parent_path(s, all[i]) by {
            assert forall|j: int| 0 <= j < i implies !(may_configure(
                s,
                pkg_name@,
                #[trigger] all[j],
            ) && paths::parent_path(s, all[j]) is Some) by {
                assert(!(is_cmake_file_about(s, all[j], name) && paths::parent_path(s, all[j])
                    is Some));
            }
            lemma_any_dir_from(s, pkg_name@, all, 0, i);
        }
        if forall|i: int|
            0 <= i < all.len() ==> !(#[trigger] is_cmake_file_about(s, all[i], name)
                && paths::parent_path(s, all[i]) is Some) {
            assert forall|j: int| 0 <= j < all.len() implies !(may_configure(
                s,
                pkg_name@,
                #[trigger] all[j],
            ) && paths::parent_path(s, all[j]) is Some) by {
                assert(!(is_cmake_file_about(s, all[j], name) && paths::parent_path(s, all[j])
                    is Some));
            }
            lemma_no_dir(s, pkg_name@, all, 0);
        }
    }
}

/// The text is a file of an installation that configures a package for the build configuration:
/// it is not empty and ends, in lower case, in the mark of the configuration.
pub open spec fn is_for_config(path: Seq<char>, build_config: Seq<char>) -> bool {
    path.len() > 0 && text::ends_in(
        text::lowercase_of(path),
        "-"@ + text::lowercase_of(build_config) + ".cmake"@,
    )
}

/// The file for release builds stands beside the file it is made from, under its name with the
/// mark for release builds in place of as many bytes at the end as the mark of the configuration
/// takes up.
pub open spec fn is_release_twin(
    style: char,
    file: SupplementFile,
    build_config: Seq<char>,
) -> bool {
    exists|dir: Seq<char>, base: Seq<char>, tail: Seq<char>|
        paths::parent_path(style, file.source@) == Some(dir) && paths::path_file_name(
            style,
            file.source@,
        ) == Some(#[trigger] (base + tail)) && vstd::utf8::encode_utf8(tail).len()
            == vstd::utf8::encode_utf8("-"@ + text::lowercase_of(build_config) + ".cmake"@).len()
            && file.target@ == #[trigger] paths::joined_path(
            style,
            dir,
            base + "-release.cmake"@,
        )
}

/// The source that a step is about.
pub open spec fn source_of(step: SupplementStep) -> Seq<char> {
    match step {
        SupplementStep::File { source, target: _ } => source,
        SupplementStep::NoFileName(path) => path,
        SupplementStep::NameTooShort(path) => path,
        SupplementStep::NoParent(path) => path,
    }
}

proof fn lemma_supplements(
    style: char,
    lines: Seq<Seq<char>>,
    build_config: Seq<char>,
    n: int,
)
    requires
        0 <= n <= lines.len(),
    ensures
        ({
            let (steps, stopped) = supplements_for(style, lines, build_config, n);
            let wanted = lines.take(n).map_values(|l: Seq<char>| text::trim_of(l)).filter(
                |p: Seq<char>| is_for_config(p, build_config),
            );
            &&& steps.len() <= wanted.len()
            &&& !stopped ==> steps.len() == wanted.len()
            &&& stopped <==> exists|k: int| 0 <= k < steps.len() && !(#[trigger] steps[k] is File)
            &&& forall|k: int|
                0 <= k < steps.len() ==> source_of(#[trigger] steps[k]) == wanted[k]
            &&& forall|k: int| 0 <= k < steps.len() - 1 ==> #[trigger] steps[k] is File
            &&& forall|k: int|
                0 <= k < steps.len() ==> exists|line: Seq<char>| #[trigger]
                    supplement_for(style, line, build_config) == Some(#[trigger] steps[k])
        }),
    decreases n,
{
    let trim = |l: Seq<char>| text::trim_of(l);
    let keep = |p: Seq<char>| is_for_config(p, build_config);
    reveal(Seq::filter);
    if n > 0 {
        lemma_supplements(style, lines, build_config, n - 1);
        let (before, halted) = supplements_for(style, lines, build_config, n - 1);
        let (steps, stopped) = supplements_for(style, lines, build_config, n);
        let all = lines.take(n).map_values(trim);
        assert(all.drop_last() =~= lines.take(n - 1).map_values(trim));
        assert(all.last() == text::trim_of(lines[n - 1]));
        let less = lines.take(n - 1).map_values(trim).filter(keep);
        let wanted = all.filter(keep);
        let step = supplement_for(style, lines[n - 1], build_config);
        if halted {
            assert(steps == before);
            let k = choose|k: int| 0 <= k < before.len() && !(#[trigger] before[k] is File);
            assert(!(steps[k] is File));
        } else {
            match step {
                None => {
                    assert(steps == before);
                },
                Some(x) => {
                    assert(steps == before.push(x));
                    assert(source_of(x) == text::trim_of(lines[n - 1]));
                    let m = before.len() as int;
                    assert(steps[m] == x);
                    assert forall|k: int| 0 <= k < before.len() implies #[trigger] steps[k]
                        == before[k] && steps[k] is File by {
                        assert(before[k] is File);
                    }
                    assert forall|k: int| 0 <= k < steps.len() implies exists|line: Seq<char>|
                        #[trigger]
                        supplement_for(style, line, build_config) == Some(
                            #[trigger] steps[k],
                        ) by {
                        if k < m {
                            assert(steps[k] == before[k]);
                        } else {
                            assert(supplement_for(style, lines[n - 1], build_config) == Some(
                                steps[k],
                            ));
                        }
                    }
                },
            }
        }
    } else {
        assert(lines.take(0).map_values(trim) =~= Seq::empty());
        assert(Seq::<Seq<char>>::empty().filter(keep) =~= Seq::empty());
    }
}

/// Every file of the installation that configures a package for the build configuration gets its
/// twin for release builds, in the order of the list of installed files, up to the first for which
/// that cannot be done; release and debug builds need none.
pub proof fn law_release_configurations_are_supplemented(
    style: &PathStyle,
    manifest: &str,
    build_config: &str,
    r: Vec<Result<SupplementFile, SupplementError>>,
)
    requires
        call_ensures(supplement_other_cmake_config, (style, manifest, build_config), r),
    ensures
        build_config@ == "Release"@ || build_config@ == "Debug"@ ==> r@.len() == 0,
        build_config@ != "Release"@ && build_config@ != "Debug"@ ==> {
            let wanted = text::lines_of(manifest@).map_values(
                |l: Seq<char>| text::trim_of(l),
            ).filter(|p: Seq<char>| is_for_config(p, build_config@));
            &&& r@.len() <= wanted.len()
            &&& r@.len() < wanted.len() ==> r@.len() > 0 && r@.last() is Err
            &&& forall|k: int| 0 <= k < r@.len() - 1 ==> #[trigger] r@[k] is Ok
            &&& forall|k: int|
                0 <= k < r@.len() ==> source_of(step_view(#[trigger] r@[k])) == wanted[k]
            &&& forall|k: int|
                0 <= k < r@.len() && (#[trigger] r@[k]) is Ok ==> is_release_twin(
                    style@,
                    r@[k]->Ok_0,
                    build_config@,
                )
        },
{
    let lines = text::lines_of(manifest@);
    let n = lines.len() as int;
    let steps = step_views(r@);
    if build_config@ != "Release"@ && build_config@ != "Debug"@ {
        lemma_supplements(style@, lines, build_config@, n);
        assert(lines.take(n) =~= lines);
        let stopped = supplements_for(style@, lines, build_config@, n).1;
        assert forall|k: int| 0 <= k < r@.len() - 1 implies #[trigger] r@[k] is Ok by {
            assert(steps[k] is File);
        }
        if stopped {
            let k = choose|k: int| 0 <= k < steps.len() && !(#[trigger] steps[k] is File);
            assert(k == steps.len() - 1);
            assert(step_view(r@[k]) == steps[k]);
        }
        assert forall|k: int| 0 <= k < r@.len() implies source_of(step_view(#[trigger] r@[k]))
            == source_of(steps[k]) by {}
        assert forall|k: int| 0 <= k < r@.len() && (#[trigger] r@[k]) is Ok implies is_release_twin(
            style@,
            r@[k]->Ok_0,
            build_config@,
        ) by {
            let file = r@[k]->Ok_0;
            assert(steps[k] == step_view(r@[k]));
            let line = choose|line: Seq<char>| #[trigger]
                supplement_for(style@, line, build_config@) == Some(steps[k]);
            let path = text::trim_of(line);
            let suffix = config_suffix(build_config@);
            let name = paths::path_file_name(style@, path)->0;
            let count = vstd::utf8::encode_utf8(suffix).len();
            text_laws::law_cutting_bytes(name, count);
            let base = text::without_bytes(name, count)->0;
            let tail = choose|tail: Seq<char>|
                name == #[trigger] (base + tail) && vstd::utf8::encode_utf8(tail).len() == count;
            let dir = paths::parent_path(style@, path)->0;
            assert(paths::path_file_name(style@, file.source@) == Some(base + tail));
            assert(file.target@ == paths::joined_path(style@, dir, base + "-release.cmake"@));
        }
    } else {
        assert(steps.len() == r@.len());
    }
}

/// The file for release builds is the one it is made from with the name of the configuration
/// replaced, wherever it stands; it is written exactly where that is not what is there.
pub proof fn law_release_content(
    content: &str,
    present: &Option<String>,
    build_config: &str,
    r: Option<String>,
    before: Seq<char>,
    after: Seq<char>,
)
    requires
        call_ensures(supplement_content, (content, present, build_config), r),
        build_config@.len() > 0,
        text::uppercase_of(build_config@).len() > 0,
    ensures
        ({
            let up = text::uppercase_of(build_config@);
            let there = match *present {
                Some(p) => p@,
                None => Seq::empty(),
            };
            let made = match r {
                Some(made) => made@,
                None => there,
            };
            &&& r matches Some(made) ==> made@ != there
            &&& !text::contains_text(content@, build_config@) && !text::contains_text(content@, up)
                ==> made == content@
            &&& is_first_in(before, build_config@, after, content@) && !text::contains_text(
                before + "Release"@ + text::replace_of(after, build_config@, "Release"@),
                up,
            ) ==> made == before + "Release"@ + text::replace_of(
                after,
                build_config@,
                "Release"@,
            )
            &&& is_first_in(before, up, after, content@) && !text::contains_text(
                content@,
                build_config@,
            ) ==> made == before + "RELEASE"@ + text::replace_of(after, up, "RELEASE"@)
        }),
{
    let cfg = build_config@;
    let up = text::uppercase_of(cfg);
    text_laws::lemma_replacing_nothing(content@, cfg, "Release"@);
    text_laws::lemma_replacing_nothing(content@, up, "RELEASE"@);
    if is_first_in(before, cfg, after, content@) {
        text_laws::law_replacing(before, cfg, after, "Release"@);
        let once = before + "Release"@ + text::replace_of(after, cfg, "Release"@);
        text_laws::lemma_replacing_nothing(once, up, "RELEASE"@);
    }
    if is_first_in(before, up, after, content@) {
        text_laws::law_replacing(before, up, after, "RELEASE"@);
    }
}

/// The text is made of something, the part, and something more, and the part stands at no earlier
/// place.
pub open spec fn is_first_in(
    before: Seq<char>,
    part: Seq<char>,
    after: Seq<char>,
    s: Seq<char>,
) -> bool {
    s == before + part + after && forall|i: int|
        0 <= i < before.len() ==> !#[trigger] text::occurs_at(before + part + after, part, i)
}

/// A setting for the number of jobs means what it says: a flag whether CMake decides, a positive
/// number that many jobs; any other number is refused.
pub proof fn law_settings_for_jobs(
    raw: RawCMakeBuildParallel,
    r: Result<CMakeBuildParallel, i64>,
)
    requires
        call_ensures(CMakeBuildParallel::from_setting, (raw,), r),
    ensures
        raw matches RawCMakeBuildParallel::Bool(enabled) ==> r == Ok::<CMakeBuildParallel, i64>(
            if enabled {
                CMakeBuildParallel::Auto
            } else {
                CMakeBuildParallel::Disabled
            },
        ),
        raw matches RawCMakeBuildParallel::Int(n) ==> if n <= 0 {
            r == Err::<CMakeBuildParallel, i64>(n)
        } else {
            r matches Ok(CMakeBuildParallel::Jobs(jobs)) && (n <= usize::MAX ==> jobs == n)
        },
{
}

/// A build runs again after a repair while it has failed less than thirty-two times, and is given
/// up then; each failure counts, and nothing else does.
pub proof fn law_failures_are_counted()
    ensures
        forall|l: &mut BuildLoop, event: BuildEvent, r: BuildStep| #[trigger]
            call_ensures(BuildLoop::next_step, (l, event), r) ==> {
                let again = event == BuildEvent::Started || event == BuildEvent::FixApplied;
                let failed = event == BuildEvent::Failed;
                &&& failed && l.attempts() < 32 ==> final(l).attempts() == l.attempts() + 1
                &&& !failed ==> final(l).attempts() == l.attempts()
                &&& failed <==> r == BuildStep::TryFix
                &&& again && l.attempts() < 32 <==> r == BuildStep::RunBuild
                &&& again && l.attempts() >= 32 <==> r == BuildStep::GiveUp(
                    BuildFailure::LimitReached,
                )
                &&& event == BuildEvent::Succeeded <==> r == BuildStep::Done
                &&& event == BuildEvent::FixNotHandled <==> r == BuildStep::GiveUp(
                    BuildFailure::NotFixed,
                )
            },
{
}

/// A repository is built wherever a relative path leads from it to its binary directory.
pub proof fn law_reachable_directories_are_built(
    style: &PathStyle,
    input: &BuildInstallInput,
    r: Option<BuildInstallPlan>,
)
    requires
        call_ensures(build_and_install, (style, input), r),
    ensures
        r is Some <==> paths::relative_path(style@, input.cmake_binary_dir@, input.repo_path@)
            is Some,
{
}

} // verus!
