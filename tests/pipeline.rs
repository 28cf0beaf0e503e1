use std::cell::RefCell;

use waterflow::error::Error;
use waterflow::job::{Job, JobId, JobStatus};
use waterflow::job_type::{JobType, Request, Response};
use waterflow::pipeline::Pipeline;
use waterflow::pipeline_tree::PipelineTree;

/// A stand-in for bash that understands `echo -n '<text>'` and `false`.
fn stub_shell(command: &str) -> Response {
    if command == "false" {
        return Response::Shell {
            success: false,
            stdout: Vec::new(),
            stderr: b"exit status 1".to_vec(),
        };
    }
    let text = command
        .strip_prefix("echo -n '")
        .and_then(|rest| rest.strip_suffix('\''))
        .unwrap_or_else(|| panic!("unexpected command: {command}"));
    Response::Shell {
        success: true,
        stdout: text.as_bytes().to_vec(),
        stderr: Vec::new(),
    }
}

fn stub_host(q: Request) -> Result<Response, Error> {
    match q {
        Request::Shell { command } => Ok(stub_shell(&command)),
        other => panic!("unexpected request: {other:?}"),
    }
}

#[test]
fn test_job_execution() {
    let mut job1 = Job::new("Test job", JobType::Noop);

    let job_res = job1.execute(&stub_host);

    assert!(job_res.is_ok(), "Job res is Error!");

    let job_res = job_res.unwrap();

    assert!(job_res.is_succeeded());
}

#[test]
fn test_pipeline_execution() {
    let job1 = Job::new("Test job Hello", JobType::new_bash("echo -n 'Hello'"));
    let job2 = Job::new("Test job World", JobType::new_bash("echo -n 'World!'"));
    let mut job3 = Job::new(
        "Test job concatenate",
        JobType::new_bash("echo -n '{INPUT}'"),
    );

    job3.add_dependency(job1.get_id());
    job3.add_dependency(job2.get_id());

    let job1_id = job1.get_id();
    let job2_id = job2.get_id();
    let job3_id = job3.get_id();

    let mut pipeline = Pipeline::new();
    pipeline.add_jobs(vec![job1, job2, job3]);

    let pipeline_res = pipeline.execute(&stub_host);

    assert!(pipeline_res.is_ok());

    let job1 = pipeline.get_job(job1_id);

    assert!(job1.input.is_empty());
    assert_eq!(job1.output, "Hello");

    let job2 = pipeline.get_job(job2_id);
    assert!(job2.input.is_empty());
    assert_eq!(job2.output, "World!");

    let job3 = pipeline.get_job(job3_id);
    assert_eq!(job3.input, ["Hello", "World!"]);
    assert_eq!(job3.output, "Hello World!");
}

#[test]
fn test_print_pipeline_dep_tree() {
    let mut pipeline = Pipeline::new();

    let file_name = "tests/wasm_example/pkg/wasm_example_bg.wasm";

    let job1 = Job::new(
        "First hello world",
        JobType::new_bash("echo -n 'Hello World! #1'"),
    );
    let job2 = Job::new(
        "Second hello world",
        JobType::new_bash("echo -n 'Hello World! #2'"),
    );

    let mut job3 = Job::new("Reverse join", JobType::new_wasm("reverse_join", file_name));
    job3.add_dependency(job1.get_id());
    job3.add_dependency(job2.get_id());

    let mut job4 = Job::new("Normal join", JobType::new_wasm("normal_join", file_name));
    job4.add_dependency(job1.get_id());
    job4.add_dependency(job2.get_id());

    pipeline.add_jobs(vec![job1, job2, job3, job4]);

    let tree = PipelineTree::new(&pipeline);
    println!("{tree:?}");
    assert_eq!(tree.name, "ROOT");
    assert_eq!(tree.dependency_of.len(), 2);
    for root in &tree.dependency_of {
        let names: Vec<&str> = root.dependency_of.iter().map(|t| t.name.as_str()).collect();
        assert_eq!(names, ["Reverse join", "Normal join"]);
    }
}

#[test]
fn smoke_noop_job_succeeds_with_message() {
    let job = Job::new("only", JobType::Noop);
    let id = job.get_id();
    let mut pipeline = Pipeline::new();
    pipeline.add_job(job);
    assert!(pipeline.execute(&stub_host).is_ok());
    match pipeline.get_job(id).get_status() {
        JobStatus::Succeeded { msg, .. } => {
            assert!(!msg.is_empty());
            assert_eq!(msg, "Noop has been hit!");
        }
        other => panic!("unexpected status {other:?}"),
    }
    assert_eq!(pipeline.get_job(id).output, "Noop has been hit!");
}

#[test]
fn shell_failure_isolates_dependants() {
    let a = Job::new("A", JobType::new_bash("false"));
    let mut b = Job::new("B", JobType::new_bash("echo -n '{INPUT}'"));
    b.add_dependency(a.get_id());
    let (a_id, b_id) = (a.get_id(), b.get_id());
    let mut pipeline = Pipeline::new();
    pipeline.add_jobs(vec![a, b]);

    assert!(pipeline.execute(&stub_host).is_ok());

    let a = pipeline.get_job(a_id);
    assert!(a.get_status().is_failed());
    assert_eq!(a.output, "Bash execution failed! exit status 1");
    let b = pipeline.get_job(b_id);
    assert!(b.get_status().is_waiting());
    assert!(b.input.is_empty());
}

#[test]
fn missing_dependency_keeps_job_waiting() {
    let mut a = Job::new("A", JobType::Noop);
    a.add_dependency(JobId::from_u128(7));
    let a_id = a.get_id();
    let mut pipeline = Pipeline::new();
    pipeline.add_job(a);
    assert!(pipeline.execute(&stub_host).is_ok());
    assert!(pipeline.get_job(a_id).get_status().is_waiting());
}

#[test]
fn dependencies_finish_before_dependants_start() {
    let order = RefCell::new(Vec::new());
    let host = |q: Request| -> Result<Response, Error> {
        if let Request::Shell { command } = &q {
            order.borrow_mut().push(command.clone());
        }
        stub_host(q)
    };
    // added in reverse order, so that insertion order and dependency order differ
    let a = Job::new("A", JobType::new_bash("echo -n 'a'"));
    let mut b = Job::new("B", JobType::new_bash("echo -n '{INPUT}b'"));
    b.add_dependency(a.get_id());
    let mut c = Job::new("C", JobType::new_bash("echo -n '{INPUT}c'"));
    c.add_dependency(b.get_id());
    let c_id = c.get_id();
    let mut pipeline = Pipeline::new();
    pipeline.add_jobs(vec![c, b, a]);

    assert!(pipeline.execute(&host).is_ok());

    assert_eq!(
        *order.borrow(),
        ["echo -n 'a'", "echo -n 'ab'", "echo -n 'abc'"]
    );
    assert_eq!(pipeline.get_job(c_id).output, "abc");
    assert_eq!(pipeline.get_job(c_id).input, ["ab"]);
}

#[test]
fn statuses_are_listed_in_insertion_order() {
    let a = Job::new("A", JobType::Noop);
    let b = Job::new("B", JobType::new_bash("false"));
    let ids = [a.get_id(), b.get_id()];
    let mut pipeline = Pipeline::new();
    pipeline.add_jobs(vec![a, b]);
    let before = pipeline.get_job_statuses();
    assert_eq!(before.len(), 2);
    assert!(before.iter().all(|(_, s)| s.is_waiting()));
    pipeline.execute(&stub_host).unwrap();
    let after = pipeline.get_job_statuses();
    assert_eq!(after[0].0, ids[0]);
    assert_eq!(after[1].0, ids[1]);
    assert!(after[0].1.is_succeeded());
    assert!(after[1].1.is_failed());
    assert!(!after[0].1.is_running());
}

#[test]
fn dependants_tree_with_shared_leaf() {
    let a = Job::new("A", JobType::Noop);
    let b = Job::new("B", JobType::Noop);
    let mut c = Job::new("C", JobType::Noop);
    c.set_dependencies(vec![a.get_id(), b.get_id()]);
    let mut pipeline = Pipeline::new();
    pipeline.add_jobs(vec![a, b, c]);

    let tree = PipelineTree::new(&pipeline);
    assert_eq!(tree.name, "ROOT");
    let roots: Vec<&str> = tree.dependency_of.iter().map(|t| t.name.as_str()).collect();
    assert_eq!(roots, ["A", "B"]);
    for root in &tree.dependency_of {
        assert_eq!(root.dependency_of.len(), 1);
        assert_eq!(root.dependency_of[0].name, "C");
        assert!(root.dependency_of[0].dependency_of.is_empty());
    }
}

#[test]
fn with_input_sets_fixed_input() {
    let job = Job::new("A", JobType::Noop).with_input(vec!["x".to_string()]);
    assert_eq!(job.fixed_input, ["x"]);
    assert!(job.input.is_empty());
    assert!(job.get_status().is_waiting());
}

#[test]
fn new_jobs_get_distinct_ids() {
    let a = Job::new("same", JobType::Noop);
    let b = Job::new("same", JobType::Noop);
    assert_ne!(a.get_id(), b.get_id());
}

#[test]
fn set_dependencies_replaces_the_list() {
    let a = Job::new("A", JobType::Noop);
    let b = Job::new("B", JobType::Noop);
    let mut c = Job::new("C", JobType::Noop);
    c.add_dependency(a.get_id());
    c.set_dependencies(vec![b.get_id()]);
    assert_eq!(c.dependencies, [b.get_id()]);
    c.add_dependency(a.get_id());
    assert_eq!(c.dependencies, [b.get_id(), a.get_id()]);
}
