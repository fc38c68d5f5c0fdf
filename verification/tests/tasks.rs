use repo_debug::error::Error;
use repo_debug::task::{
    run_all, run_task, CoreTask, DataContainer, DataContainerBase, FingerprintProvider,
    IncrementalDataContainer, IncrementalTask, SingleTask, TaskMeta, TaskPair, VariadicTaskRunner,
};
use std::cell::RefCell;
use std::collections::HashMap;

#[derive(Default)]
struct TestContainer {
    is_finished: bool,
    input: i32,
    output: Option<i32>,
    save_error: Option<String>,
    calls: Vec<String>,
    finish_marks: usize,
    fingerprints: HashMap<String, String>,
    incremental_outputs: HashMap<String, i32>,
}

struct TestCoreTask {
    fail_on_execute: bool,
}

impl TaskMeta for TestCoreTask {
    fn id(&self) -> &'static str {
        "test_core_task"
    }
}

impl CoreTask for TestCoreTask {
    type Input<'a> = i32;
    type Output = i32;

    fn execute<'a>(&self, input: i32) -> Result<i32, Error> {
        if self.fail_on_execute {
            return Err(Error::new("execute failed"));
        }
        Ok(input + 1)
    }
}

impl DataContainerBase for TestContainer {
    fn save(&self) -> Result<(), Error> {
        if let Some(message) = &self.save_error {
            return Err(Error::new(message));
        }
        Ok(())
    }

    fn mark_task_finish(&mut self, _repo_name: &str, _task_id: &str) -> Result<(), Error> {
        self.calls.push("mark_task_finish".to_string());
        self.finish_marks += 1;
        Ok(())
    }

    fn is_task_finished(&self, _repo_name: &str, _task_id: &str) -> Result<bool, Error> {
        Ok(self.is_finished)
    }
}

impl DataContainer<TestCoreTask> for TestContainer {
    fn get_input<'a>(&'a self, _repo_name: &str, _task_id: &str) -> Result<i32, Error> {
        Ok(self.input)
    }

    fn save_output(&mut self, _repo_name: &str, _task_id: &str, output: i32) -> Result<(), Error> {
        self.calls.push("save_output".to_string());
        self.output = Some(output);
        Ok(())
    }
}

struct TestIncrementalTask {
    seen_fingerprint_is_ok: RefCell<Option<bool>>,
}

struct FingerprintDoc {
    value: i32,
}

impl TaskMeta for TestIncrementalTask {
    fn id(&self) -> &'static str {
        "test_incremental_task"
    }
}

impl IncrementalTask for TestIncrementalTask {
    type Input<'a> = i32;
    type Output = i32;
    type Fingerprint = FingerprintDoc;

    fn execute<'a>(
        &self,
        input: i32,
        last_fingerprint: &Result<FingerprintDoc, Error>,
    ) -> Result<(i32, FingerprintDoc), Error> {
        self.seen_fingerprint_is_ok.replace(Some(last_fingerprint.is_ok()));
        let base = last_fingerprint.as_ref().ok().map(|fp| fp.value).unwrap_or_default();
        Ok((input + base, FingerprintDoc { value: input }))
    }

    fn fingerprint_to_json(&self, fingerprint: &FingerprintDoc) -> Result<String, Error> {
        let mut doc = serde_json::Map::new();
        doc.insert("value".to_string(), serde_json::Value::from(fingerprint.value));
        Ok(serde_json::Value::Object(doc).to_string())
    }

    fn json_to_fingerprint(&self, doc: String) -> Result<FingerprintDoc, Error> {
        let value: serde_json::Value =
            serde_json::from_str(&doc).map_err(|e| Error::new(&e.to_string()))?;
        match value.get("value").and_then(|v| v.as_i64()) {
            Some(number) => Ok(FingerprintDoc { value: number as i32 }),
            None => Err(Error::new("not a fingerprint")),
        }
    }
}

impl IncrementalDataContainer<TestIncrementalTask> for TestContainer {
    fn get_input<'a>(&'a self, repo_name: &str) -> Result<i32, Error> {
        self.incremental_outputs.get(repo_name).copied().ok_or_else(|| Error::new("missing input"))
    }

    fn save_output(&mut self, repo_name: &str, output: i32) -> Result<(), Error> {
        self.calls.push("incremental_save_output".to_string());
        self.incremental_outputs.insert(repo_name.to_string(), output);
        Ok(())
    }
}

impl FingerprintProvider for TestContainer {
    fn get_fingerprint_json(&self, repo_name: &str, task_id: &str) -> Result<String, Error> {
        Ok(self
            .fingerprints
            .get(&format!("{}:{}", repo_name, task_id))
            .cloned()
            .unwrap_or("null".to_string()))
    }

    fn save_fingerprint_json(
        &mut self,
        repo_name: &str,
        task_id: &str,
        fingerprint: String,
    ) -> Result<(), Error> {
        self.calls.push("save_fingerprint_json".to_string());
        self.fingerprints.insert(format!("{}:{}", repo_name, task_id), fingerprint);
        Ok(())
    }
}

struct RecordingRunner {
    calls: Vec<String>,
    fail_at: Option<String>,
}

impl VariadicTaskRunner for RecordingRunner {
    fn run_one_repo(&mut self, repo_name: &str) -> Result<(), Error> {
        self.calls.push(repo_name.to_string());
        if self.fail_at.as_ref().is_some_and(|r| r == repo_name) {
            return Err(Error::new(&format!("runner failed at {}", repo_name)));
        }
        Ok(())
    }
}

#[test]
fn run_task_skips_when_already_finished() {
    let task = TestCoreTask { fail_on_execute: false };
    let mut container = TestContainer { is_finished: true, input: 1, ..Default::default() };

    run_task(&task, &mut container, "repo_a").expect("should skip successfully");
    assert!(container.output.is_none());
    assert!(container.calls.is_empty());
    assert_eq!(container.finish_marks, 0);
}

#[test]
fn run_task_executes_and_persists_when_unfinished() {
    let task = TestCoreTask { fail_on_execute: false };
    let mut container = TestContainer { input: 41, ..Default::default() };

    run_task(&task, &mut container, "repo_a").expect("run_task should succeed");
    assert_eq!(container.output, Some(42));
    assert_eq!(
        container.calls,
        vec!["save_output".to_string(), "mark_task_finish".to_string()]
    );
    assert_eq!(container.finish_marks, 1);
}

#[test]
fn run_task_propagates_execute_error_without_marking_finished() {
    let task = TestCoreTask { fail_on_execute: true };
    let mut container = TestContainer { input: 1, ..Default::default() };

    let err = run_task(&task, &mut container, "repo_a").expect_err("should fail");
    assert!(err.message.contains("execute failed"));
    assert!(container.output.is_none());
    assert!(container.calls.is_empty());
    assert_eq!(container.finish_marks, 0);
}

#[test]
fn run_task_propagates_save_error_after_marking_finished() {
    let task = TestCoreTask { fail_on_execute: false };
    let mut container = TestContainer {
        input: 5,
        save_error: Some("save failed".to_string()),
        ..Default::default()
    };

    let err = run_task(&task, &mut container, "repo_a").expect_err("save should fail");
    assert!(err.message.contains("save failed"));
    assert_eq!(container.output, Some(6));
    assert_eq!(
        container.calls,
        vec!["save_output".to_string(), "mark_task_finish".to_string()]
    );
    assert_eq!(container.finish_marks, 1);
}

#[test]
fn incremental_coretask_receives_deserialized_fingerprint() {
    let task = TestIncrementalTask { seen_fingerprint_is_ok: RefCell::new(None) };
    let fp_json = r#"{"value":10}"#.to_string();

    let (new_fp, output) = CoreTask::execute(&task, (fp_json, 2)).expect("should execute");
    assert_eq!(output, 12);
    assert_eq!(*task.seen_fingerprint_is_ok.borrow(), Some(true));
    assert_eq!(new_fp, r#"{"value":2}"#);
}

#[test]
fn incremental_coretask_passes_deserialize_error_to_execute() {
    let task = TestIncrementalTask { seen_fingerprint_is_ok: RefCell::new(None) };
    let invalid_fp = r#""invalid-shape""#.to_string();

    let (new_fp, output) =
        CoreTask::execute(&task, (invalid_fp, 3)).expect("execute should still run");
    assert_eq!(output, 3);
    assert_eq!(*task.seen_fingerprint_is_ok.borrow(), Some(false));
    assert_eq!(new_fp, r#"{"value":3}"#);
}

#[test]
fn incremental_data_container_bridge_reads_and_writes_fingerprint_and_output() {
    let task = TestIncrementalTask { seen_fingerprint_is_ok: RefCell::new(None) };
    let mut container = TestContainer::default();
    container
        .fingerprints
        .insert("repo_x:test_incremental_task".to_string(), r#"{"value":1}"#.to_string());
    container.incremental_outputs.insert("repo_x".to_string(), 5);

    run_task(&task, &mut container, "repo_x").expect("incremental run_task should succeed");
    assert_eq!(container.incremental_outputs.get("repo_x"), Some(&6));
    assert_eq!(
        container.fingerprints.get("repo_x:test_incremental_task").cloned(),
        Some(r#"{"value":5}"#.to_string())
    );
    assert_eq!(
        container.calls,
        vec![
            "save_fingerprint_json".to_string(),
            "incremental_save_output".to_string(),
            "mark_task_finish".to_string()
        ]
    );
}

#[test]
fn run_all_runs_in_order() {
    let mut runner = RecordingRunner { calls: Vec::new(), fail_at: None };
    let repos = vec!["a".to_string(), "b".to_string(), "c".to_string()];
    run_all(&mut runner, &repos).expect("run_all should succeed");
    assert_eq!(runner.calls, vec!["a".to_string(), "b".to_string(), "c".to_string()]);
}

#[test]
fn run_all_stops_on_first_error() {
    let mut runner = RecordingRunner { calls: Vec::new(), fail_at: Some("b".to_string()) };
    let repos = vec!["a".to_string(), "b".to_string(), "c".to_string()];
    let err = run_all(&mut runner, &repos).expect_err("should fail at b");
    assert!(err.message.contains("runner failed at b"));
    assert_eq!(runner.calls, vec!["a".to_string(), "b".to_string()]);
}

#[test]
fn single_task_runs_on_the_repository() {
    let mut runner = SingleTask {
        container: TestContainer { input: 1, ..Default::default() },
        task: TestCoreTask { fail_on_execute: false },
    };
    run_all(&mut runner, &vec!["a".to_string(), "b".to_string()]).unwrap();
    assert_eq!(runner.container.output, Some(2));
    assert_eq!(runner.container.finish_marks, 2);
}

#[test]
fn task_pair_leaves_out_the_second_where_the_first_fails() {
    let mut container = TestContainer { input: 1, ..Default::default() };
    container.incremental_outputs.insert("a".to_string(), 7);
    let mut runner = TaskPair {
        container,
        first: TestIncrementalTask { seen_fingerprint_is_ok: RefCell::new(None) },
        second: TestCoreTask { fail_on_execute: false },
    };
    runner.run_one_repo("a").unwrap();
    assert_eq!(
        runner.container.calls,
        vec![
            "save_fingerprint_json",
            "incremental_save_output",
            "mark_task_finish",
            "save_output",
            "mark_task_finish"
        ]
    );
    let err = runner.run_one_repo("unknown").unwrap_err();
    assert_eq!(err.message, "missing input");
    assert_eq!(runner.container.calls.len(), 5);
}

#[test]
fn contexts_keep_their_causes() {
    let error = Error::new("inner").with_context("middle").with_context("outer");
    assert_eq!(error.message, "outer");
    assert_eq!(error.causes, vec!["middle", "inner"]);
    assert_eq!(Error::about("no such thing: ", "x").message, "no such thing: x");
}

/// Answers with what it is told of its last fingerprint.
struct Teller;

impl TaskMeta for Teller {
    fn id(&self) -> &'static str {
        "teller"
    }
}

impl IncrementalTask for Teller {
    type Input<'a> = ();
    type Output = Vec<String>;
    type Fingerprint = ();

    fn execute<'a>(
        &self,
        _input: (),
        last_fingerprint: &Result<(), Error>,
    ) -> Result<(Vec<String>, ()), Error> {
        let told = match last_fingerprint {
            Ok(()) => Vec::new(),
            Err(e) => std::iter::once(&e.message).chain(e.causes.iter()).cloned().collect(),
        };
        Ok((told, ()))
    }

    fn fingerprint_to_json(&self, _fingerprint: &()) -> Result<String, Error> {
        Ok("null".to_string())
    }

    fn json_to_fingerprint(&self, doc: String) -> Result<(), Error> {
        if doc == "null" {
            Ok(())
        } else {
            Err(Error::new("not null"))
        }
    }
}

#[test]
fn unreadable_fingerprints_come_with_their_context() {
    let (_, told) = CoreTask::execute(&Teller, ("1".to_string(), ())).unwrap();
    assert_eq!(told, vec!["Failed to deserialize fingerprint", "not null"]);
    let (kept, told) = CoreTask::execute(&Teller, ("null".to_string(), ())).unwrap();
    assert!(told.is_empty());
    assert_eq!(kept, "null");
}
