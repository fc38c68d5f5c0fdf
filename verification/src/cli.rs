//! What the user asks for on the command line.

use vstd::prelude::*;

verus! {

/// A command line: what every command takes, and the command, if any.
#[derive(Debug)]
pub struct Cli {
    pub args: RunArgs,
    pub command: Option<RepoCommand>,
}

/// The commands besides the build itself.
#[derive(Debug)]
pub enum RepoCommand {
    /// To run something in each repository.
    Each(EachCommand),
    /// To change the settings.
    Config(ConfigCommand),
}

/// Something to run in each repository.
#[derive(Debug)]
pub struct EachCommand {
    /// The remote branch to switch to, as `remote/branch`.
    pub switch_remote: Option<String>,
    /// Whether a branch in use by another worktree may be taken from it.
    pub force: bool,
    /// The directories of the repositories to run it in; where there are none, all.
    pub only: Vec<String>,
    /// The directories of the repositories to leave out.
    pub except: Vec<String>,
    /// The program to run, with its arguments.
    pub cmd: Vec<String>,
}

impl Default for EachCommand {
    fn default() -> (r: Self)
        ensures
            r.switch_remote is None,
            !r.force,
            r.only@ == Seq::<String>::empty(),
            r.except@ == Seq::<String>::empty(),
            r.cmd@ == Seq::<String>::empty(),
    {
        EachCommand {
            switch_remote: None,
            force: false,
            only: Vec::new(),
            except: Vec::new(),
            cmd: Vec::new(),
        }
    }
}

/// A change of the settings.
#[derive(Debug)]
pub struct ConfigCommand {
    pub build_type: Option<String>,
    /// The directories of repositories to put under debug.
    pub add: Vec<String>,
    /// The directories of repositories to take from under debug.
    pub remove: Vec<String>,
}

impl Default for ConfigCommand {
    fn default() -> (r: Self)
        ensures
            r.build_type is None,
            r.add@ == Seq::<String>::empty(),
            r.remove@ == Seq::<String>::empty(),
    {
        ConfigCommand { build_type: None, add: Vec::new(), remove: Vec::new() }
    }
}

/// What a build is asked for with.
#[derive(Debug)]
pub struct RunArgs {
    /// The file with the settings.
    pub config_file: Option<String>,
    /// Whether only to look.
    pub check_only: bool,
    /// Whether to bring the repositories up to date.
    pub enable_merge: bool,
    /// Whether to install packages.
    pub conan: bool,
    /// Whether to update packages.
    pub conan_update: bool,
    /// The directories of the repositories to configure; where there are none, all.
    pub cmake: Option<Vec<String>>,
    /// The directories of the repositories to configure afresh; where there are none, all.
    pub cmake_fresh: Option<Vec<String>>,
    /// Whether to go on where the last build stopped.
    pub is_continue: bool,
    /// Whether to tell more.
    pub verbose: bool,
}

impl Default for RunArgs {
    fn default() -> (r: Self)
        ensures
            r.config_file is None,
            !r.check_only,
            !r.enable_merge,
            !r.conan,
            !r.conan_update,
            r.cmake is None,
            r.cmake_fresh is None,
            !r.is_continue,
            !r.verbose,
    {
        RunArgs {
            config_file: None,
            check_only: false,
            enable_merge: false,
            conan: false,
            conan_update: false,
            cmake: None,
            cmake_fresh: None,
            is_continue: false,
            verbose: false,
        }
    }
}

} // verus!
