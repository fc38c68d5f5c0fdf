use repo_debug::cli::EachCommand;
use repo_debug::config::{FileConfig, InterruptRepoCache};
use repo_debug::each_repo_command::{
    check_arguments, custom_command, filter_repo_names_by_path, run, run_or_prompt_continue,
    run_or_prompt_continue_with_confirm, run_repo_command, EachRepoExecutionError, EachRunner,
    EachStep,
};
use repo_debug::error::Error;
use repo_debug::paths::{PathContext, PathStyle};

#[test]
fn run_or_prompt_continue_returns_ok_without_recording_when_op_succeeds() {
    let mut deferred_errors = Vec::new();

    run_or_prompt_continue_with_confirm(
        &mut deferred_errors,
        "repo_a",
        "test action",
        || Ok(()),
        |_| panic!("confirmation should not be requested"),
    )
    .expect("successful op should return ok");

    assert!(deferred_errors.is_empty());
}

#[test]
fn run_or_prompt_continue_records_error_when_user_continues() {
    let mut deferred_errors = Vec::new();

    run_or_prompt_continue_with_confirm(
        &mut deferred_errors,
        "repo_a",
        "test action",
        || Err(Error::new("op failed")),
        |_| Ok(true),
    )
    .expect("continued error should return ok");

    assert_eq!(deferred_errors.len(), 1);
    assert!(deferred_errors[0].message.contains("op failed"));
}

#[test]
fn interrupted_execution_error_keeps_previous_deferred_errors() {
    let mut deferred_errors = vec![Error::new("repo_before previous action: previous failed")];

    let err = run_or_prompt_continue_with_confirm(
        &mut deferred_errors,
        "repo_a",
        "test action",
        || Err(Error::new("op failed")),
        |_| Ok(false),
    )
    .expect_err("stop response should interrupt");

    let err = EachRepoExecutionError::new(deferred_errors, Some(err));

    let msg = err.message();
    assert!(msg.contains("repo_before"));
    assert!(msg.contains("previous action"));
    assert!(msg.contains("previous failed"));
    assert!(msg.contains("op failed"));
}

#[test]
fn deferred_errors_display_contains_all_recorded_failures() {
    let err = EachRepoExecutionError::new(
        vec![
            Error::new("repo_a first action: first failed"),
            Error::new("repo_b second action: second failed"),
        ],
        None,
    );

    let msg = err.message();
    assert!(msg.contains("2 deferred error(s)"));
    assert!(msg.contains("repo_a"));
    assert!(msg.contains("first action"));
    assert!(msg.contains("first failed"));
    assert!(msg.contains("repo_b"));
    assert!(msg.contains("second action"));
    assert!(msg.contains("second failed"));
}

#[test]
fn execution_errors_are_described_in_full() {
    let both = EachRepoExecutionError::new(
        vec![Error::new("one"), Error::new("two")],
        Some(Error::new("three")),
    );
    assert_eq!(
        both.message(),
        "each command recorded 2 deferred error(s):\n  1. one\n  2. two\n\neach command interrupted at repo 'three'"
    );
    let stopped = EachRepoExecutionError::new(Vec::new(), Some(Error::new("x")));
    assert_eq!(stopped.message(), "each command interrupted at repo 'x'");
    assert_eq!(EachRepoExecutionError::new(Vec::new(), None).message(), "");
}

/// Fails in some repositories, gives the same answer after each failure, and writes down what it
/// hears of.
struct Script {
    failing: Vec<(EachStep, &'static str)>,
    answer: fn(&str) -> Result<bool, Error>,
    heard: Vec<String>,
}

fn script(failing: &[(EachStep, &'static str)], answer: fn(&str) -> Result<bool, Error>) -> Script {
    Script { failing: failing.to_vec(), answer, heard: Vec::new() }
}

impl EachRunner for Script {
    fn perform(&mut self, step: EachStep, repo_name: &str) -> Result<(), Error> {
        let word = match step {
            EachStep::SwitchRemote => "switch",
            EachStep::CustomCommand => "run",
        };
        self.heard.push(format!("{} {}", word, repo_name));
        if self.failing.iter().any(|(failing, name)| *failing == step && *name == repo_name) {
            return Err(Error::new(&format!("{} failed", repo_name)));
        }
        Ok(())
    }

    fn confirm_continue(&mut self, repo_name: &str, action: &str, error: &Error) -> Result<bool, Error> {
        self.heard.push(format!("ask {}: {}: {}", repo_name, action, error.message));
        (self.answer)(repo_name)
    }
}

#[test]
fn answers_that_cannot_be_read_end_it() {
    let mut deferred_errors = Vec::new();
    let mut runner = script(&[(EachStep::CustomCommand, "a")], |_| Err(Error::new("no terminal")));
    let (ended, _) = run_or_prompt_continue(
        &mut deferred_errors,
        "a",
        EachStep::CustomCommand,
        "test action",
        &mut runner,
    );
    let err = ended.unwrap_err();
    assert_eq!(
        err.message,
        "failed to get continue confirmation after repo 'a' error while running test action"
    );
    assert_eq!(err.causes, vec!["no terminal"]);
    assert!(deferred_errors.is_empty());
    assert_eq!(runner.heard, vec!["run a", "ask a: test action: a failed"]);
    let (ended, _) = run_or_prompt_continue(
        &mut deferred_errors,
        "a",
        EachStep::SwitchRemote,
        "test action",
        &mut runner,
    );
    assert!(ended.is_ok());
    assert_eq!(runner.heard.len(), 3);
}

fn names(list: &[&str]) -> Vec<String> {
    list.iter().map(|s| s.to_string()).collect()
}

#[test]
fn failures_are_put_off_until_one_ends_it() {
    let step = EachStep::CustomCommand;
    let mut deferred_errors = vec![Error::new("earlier")];
    let mut runner = script(&[(step, "b"), (step, "c"), (step, "d")], |name| Ok(name == "b"));
    let (ended, _) = run_repo_command(
        &names(&["a", "b", "c", "d"]),
        &mut deferred_errors,
        step,
        "act",
        &mut runner,
    );
    let err = ended.unwrap_err();
    assert_eq!(
        runner.heard,
        vec!["run a", "run b", "ask b: act: b failed", "run c", "ask c: act: c failed"]
    );
    assert!(deferred_errors.is_empty());
    assert_eq!(err.deferred_errors.len(), 2);
    assert_eq!(err.deferred_errors[0].message, "earlier");
    assert_eq!(err.deferred_errors[1].message, "b failed");
    assert_eq!(err.interrupted.unwrap().message, "c failed");

    let mut runner = script(&[(step, "b")], |_| Ok(true));
    let (ended, _) = run_repo_command(
        &names(&["a", "b", "c"]),
        &mut deferred_errors,
        step,
        "act",
        &mut runner,
    );
    assert!(ended.is_ok());
    assert_eq!(deferred_errors.len(), 1);
    assert_eq!(deferred_errors[0].message, "b failed");
    assert_eq!(runner.heard, vec!["run a", "run b", "ask b: act: b failed", "run c"]);
}

#[test]
fn branches_are_switched_everywhere_before_a_command_runs() {
    let command = EachCommand { cmd: names(&["git", "status"]), ..Default::default() };
    let mut runner = script(&[(EachStep::SwitchRemote, "a")], |_| Ok(true));
    let err = run(&names(&["a", "b"]), &command, &mut runner).unwrap_err();
    assert_eq!(
        runner.heard,
        vec!["switch a", "ask a: switch remote: a failed", "switch b", "run a", "run b"]
    );
    assert_eq!(err.message(), "each command recorded 1 deferred error(s):\n  1. a failed");
    let mut calm = script(&[], |_| Ok(false));
    assert!(run(&names(&["a"]), &command, &mut calm).is_ok());
    assert_eq!(calm.heard, vec!["switch a", "run a"]);
    let mut runner = script(&[(EachStep::CustomCommand, "a")], |_| Ok(false));
    let stopped = run(&names(&["a", "b"]), &command, &mut runner).unwrap_err();
    assert_eq!(stopped.interrupted.unwrap().message, "a failed");
    assert_eq!(
        runner.heard,
        vec!["switch a", "switch b", "run a", "ask a: custom command: git status: a failed"]
    );
    let mut runner = script(&[(EachStep::SwitchRemote, "a")], |_| Ok(false));
    assert!(run(&names(&["a", "b"]), &command, &mut runner).is_err());
    assert_eq!(runner.heard, vec!["switch a", "ask a: switch remote: a failed"]);
}

fn settings() -> FileConfig {
    let mut config = FileConfig::default();
    for (name, dir) in [("app", "/work/app"), ("lib", "lib"), ("net", "/work/net")] {
        let mut cache = InterruptRepoCache::default();
        cache.repo_dir = dir.to_string();
        config.interrupt_cache.interrupt_repo_cache.insert(name.to_string(), cache);
    }
    config
}

#[test]
fn repositories_are_chosen_by_their_directories() {
    let context = PathContext::new(PathStyle::native(), "/work".to_string()).unwrap();
    let config = settings();
    let all = names(&["lib", "net", "app"]);
    let none: Vec<String> = Vec::new();
    let choose = |only: &[&str], except: &[&str]| {
        filter_repo_names_by_path(&context, &config, &all, &names(only), &names(except))
    };
    assert_eq!(choose(&[], &[]).unwrap(), all);
    assert_eq!(choose(&["app", "/work/lib/"], &[]).unwrap(), vec!["lib", "app"]);
    assert_eq!(choose(&[], &["./net"]).unwrap(), vec!["lib", "app"]);
    assert_eq!(choose(&["app"], &["app"]).unwrap(), none);
    assert_eq!(
        choose(&["x/../nowhere"], &[]).unwrap_err().message,
        "No identification name found for directory: /work/nowhere"
    );
    assert_eq!(
        choose(&["app"], &["/y"]).unwrap_err().message,
        "No identification name found for directory: /y"
    );
}

#[test]
fn commands_have_to_say_something() {
    let error = check_arguments(&EachCommand::default()).unwrap_err();
    assert_eq!(
        error.message,
        "each command arguments are invalid!\n\teach: either --switch-remote or command must be provided"
    );
    let switch =
        EachCommand { switch_remote: Some("origin/main".to_string()), ..Default::default() };
    assert!(check_arguments(&switch).is_ok());
    let line = custom_command(&names(&["git", "pull", "--all"])).unwrap();
    assert_eq!(line.program, "git");
    assert_eq!(line.arguments, vec!["pull", "--all"]);
    assert!(custom_command(&Vec::new()).is_none());
}
