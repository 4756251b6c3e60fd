use geoengine::jobs::{CancelOutcome, JobError, JobManager, JobState, OutputFile};
use geoengine::plan::{build_tool_plan, parse_inputs, ExecutionPlan, PathProbe};
use geoengine::project::{ParameterDefinition, ProjectConfig, ToolDefinition};

fn s(x: &str) -> String {
    x.to_string()
}

fn plan() -> ExecutionPlan {
    ExecutionPlan {
        image: s("geoengine-demo:latest"),
        command: vec![s("/bin/sh"), s("-c"), s("true")],
        env_vars: Vec::new(),
        mounts: Vec::new(),
        gpu_config: None,
        memory: None,
        cpus: None,
        shm_size: None,
        workdir: None,
        name: None,
        remove_on_exit: true,
        detach: false,
        tty: false,
    }
}

fn state_of(m: &JobManager, id: &str) -> JobState {
    m.get(id).ok().unwrap().state
}

fn file(name: &str) -> OutputFile {
    OutputFile { name: s(name), path: format!("/tmp/out/{}", name), size: 3 }
}

#[test]
fn submit_returns_sequential_ids_in_queued_state() {
    let mut m = JobManager::new(2);
    assert_eq!(m.submit(plan(), None, 10), "job-1");
    assert_eq!(m.submit(plan(), None, 11), "job-2");
    let list = m.list();
    assert_eq!(list.len(), 2);
    assert_eq!(list[0].id, "job-1");
    assert_eq!(list[1].id, "job-2");
    assert_eq!(list[0].state, JobState::Queued);
    assert_eq!(list[1].created_at, 11);
    assert!(list[0].started_at.is_none());
}

#[test]
fn get_unknown_job() {
    let m = JobManager::new(1);
    match m.get("job-9") {
        Err(JobError::NotFound(id)) => assert_eq!(id, "job-9"),
        _ => panic!("expected not found"),
    }
}

#[test]
fn running_jobs_never_exceed_bound() {
    let mut m = JobManager::new(2);
    for t in 0..5 {
        m.submit(plan(), None, t);
    }
    for t in 0..4 {
        m.process_pending(100 + t);
        assert!(m.running() <= 2);
    }
    assert_eq!(m.running(), 2);
    m.record_exit("job-1", 0, 200).ok().unwrap();
    assert_eq!(m.running(), 1);
    let started = m.process_pending(201);
    assert_eq!(started, vec![s("job-3")]);
    assert_eq!(m.running(), 2);
}

#[test]
fn bound_one_promotes_in_submission_order() {
    let mut m = JobManager::new(1);
    for t in 0..3 {
        m.submit(plan(), None, t);
    }
    assert_eq!(m.process_pending(10), vec![s("job-1")]);
    assert!(m.process_pending(11).is_empty());
    m.record_exit("job-1", 0, 12).ok().unwrap();
    assert_eq!(m.process_pending(13), vec![s("job-2")]);
    m.record_exit("job-2", 1, 14).ok().unwrap();
    assert_eq!(m.process_pending(15), vec![s("job-3")]);
    assert_eq!(state_of(&m, "job-3"), JobState::Running);
    assert_eq!(m.get("job-3").ok().unwrap().started_at, Some(15));
}

#[test]
fn scenario_bound_plus_one_submissions() {
    let w: usize = 3;
    let mut m = JobManager::new(w);
    for t in 0..(w as i64 + 1) {
        m.submit(plan(), None, t);
    }
    let started = m.process_pending(50);
    assert_eq!(started, vec![s("job-1"), s("job-2"), s("job-3")]);
    assert_eq!(m.running(), w);
    assert_eq!(state_of(&m, "job-4"), JobState::Queued);
    assert!(m.process_pending(51).is_empty());
    assert_eq!(state_of(&m, "job-4"), JobState::Queued);
    m.record_exit("job-2", 0, 52).ok().unwrap();
    assert_eq!(m.process_pending(53), vec![s("job-4")]);
    assert_eq!(state_of(&m, "job-4"), JobState::Running);
}

#[test]
fn cancelled_queued_job_never_runs() {
    let mut m = JobManager::new(1);
    m.submit(plan(), None, 0);
    m.submit(plan(), None, 1);
    assert_eq!(m.cancel("job-1", 5).ok().unwrap(), CancelOutcome::Cancelled);
    assert_eq!(state_of(&m, "job-1"), JobState::Cancelled);
    assert_eq!(m.get("job-1").ok().unwrap().finished_at, Some(5));
    assert_eq!(m.process_pending(6), vec![s("job-2")]);
    m.record_exit("job-2", 0, 7).ok().unwrap();
    assert!(m.process_pending(8).is_empty());
    assert_eq!(state_of(&m, "job-1"), JobState::Cancelled);
}

#[test]
fn cancel_terminal_job_conflicts() {
    let mut m = JobManager::new(3);
    m.submit(plan(), None, 0);
    m.submit(plan(), None, 0);
    m.submit(plan(), None, 0);
    m.process_pending(1);
    m.record_exit("job-1", 0, 2).ok().unwrap();
    m.record_exit("job-2", 4, 2).ok().unwrap();
    m.cancel("job-3", 3).ok().unwrap();
    m.record_stop("job-3", Ok(()), 3).ok().unwrap();
    for (id, st) in [("job-1", JobState::Completed), ("job-2", JobState::Failed), ("job-3", JobState::Cancelled)] {
        assert_eq!(state_of(&m, id), st);
        match m.cancel(id, 9) {
            Err(JobError::Conflict(x)) => assert_eq!(x, id),
            _ => panic!("expected a conflict"),
        }
        assert_eq!(state_of(&m, id), st);
        assert_eq!(m.get(id).ok().unwrap().finished_at, Some(if id == "job-3" { 3 } else { 2 }));
    }
}

#[test]
fn cancel_unknown_job() {
    let mut m = JobManager::new(1);
    match m.cancel("job-1", 0) {
        Err(JobError::NotFound(x)) => assert_eq!(x, "job-1"),
        _ => panic!("expected not found"),
    }
}

#[test]
fn cancel_running_job_requests_stop() {
    let mut m = JobManager::new(2);
    m.submit(plan(), None, 0);
    m.submit(plan(), None, 0);
    m.process_pending(1);
    assert_eq!(m.cancel("job-1", 2).ok().unwrap(), CancelOutcome::StopRequested);
    assert_eq!(state_of(&m, "job-1"), JobState::Running);
    assert_eq!(m.record_stop("job-1", Ok(()), 3).ok().unwrap(), JobState::Cancelled);
    assert_eq!(m.cancel("job-2", 4).ok().unwrap(), CancelOutcome::StopRequested);
    assert_eq!(m.record_stop("job-2", Err(s("daemon gone")), 5).ok().unwrap(), JobState::Failed);
    let j = m.get("job-2").ok().unwrap();
    assert_eq!(j.error, Some(s("daemon gone")));
    assert_eq!(j.finished_at, Some(5));
}

#[test]
fn failed_exit_records_message() {
    let mut m = JobManager::new(1);
    m.submit(plan(), None, 0);
    m.process_pending(1);
    assert_eq!(m.record_exit("job-1", -3, 2).ok().unwrap(), JobState::Failed);
    let j = m.get("job-1").ok().unwrap();
    assert_eq!(j.exit_code, Some(-3));
    assert_eq!(j.error, Some(s("Container exited with code -3")));
    assert_eq!(m.record_exit("job-1", 0, 3).ok().unwrap(), JobState::Failed);
}

#[test]
fn start_failure_is_isolated() {
    let mut m = JobManager::new(2);
    m.submit(plan(), None, 0);
    m.submit(plan(), None, 0);
    m.process_pending(1);
    assert_eq!(m.record_failure("job-1", s("no such image"), 2).ok().unwrap(), JobState::Failed);
    assert_eq!(state_of(&m, "job-2"), JobState::Running);
    assert_eq!(m.get("job-1").ok().unwrap().error, Some(s("no such image")));
    assert_eq!(m.record_failure("job-1", s("again"), 3).ok().unwrap(), JobState::Failed);
    assert_eq!(m.get("job-1").ok().unwrap().error, Some(s("no such image")));
}

#[test]
fn output_empty_until_terminal() {
    let mut m = JobManager::new(1);
    m.submit(plan(), Some(s("/tmp/out")), 0);
    m.submit(plan(), None, 0);
    assert!(m.get_output("job-1", vec![file("a.tif")]).ok().unwrap().is_empty());
    m.process_pending(1);
    assert!(m.get_output("job-1", vec![file("a.tif")]).ok().unwrap().is_empty());
    m.record_exit("job-1", 0, 2).ok().unwrap();
    let files = m.get_output("job-1", vec![file("a.tif"), file("b.json")]).ok().unwrap();
    assert_eq!(files.len(), 2);
    assert_eq!(files[0].name, "a.tif");
    assert_eq!(files[1].path, "/tmp/out/b.json");
    m.cancel("job-2", 3).ok().unwrap();
    assert!(m.get_output("job-2", vec![file("x")]).ok().unwrap().is_empty());
    assert!(matches!(m.get_output("job-3", Vec::new()), Err(JobError::NotFound(_))));
}

#[test]
fn scenario_classify_job_lifecycle() {
    let config = ProjectConfig {
        name: s("demo"),
        version: None,
        base_image: None,
        scripts: vec![(s("classify"), s("python classify.py"))],
        runtime: None,
        build: None,
        tools: vec![ToolDefinition {
            name: s("classify"),
            label: None,
            description: None,
            script: s("classify"),
            inputs: Some(vec![ParameterDefinition {
                name: s("raster"),
                label: None,
                map_to: None,
                param_type: s("file"),
                required: Some(true),
                description: None,
                choices: None,
            }]),
            outputs: None,
        }],
    };
    let inputs = parse_inputs(&vec![s("raster=/tmp/in.tif")]).ok().unwrap();
    let probes = vec![PathProbe::File { host: s("/tmp/in.tif"), file_name: s("in.tif") }];
    let plan = build_tool_plan(&config, "/p", &Vec::new(), "classify", &inputs, &probes, Some(s("/tmp/out")), true, None)
        .ok()
        .unwrap();
    let mounts: Vec<(String, String, bool)> =
        plan.mounts.iter().map(|m| (m.host.clone(), m.container.clone(), m.read_only)).collect();
    assert!(mounts.contains(&(s("/tmp/in.tif"), s("/inputs/in.tif"), true)));
    assert!(mounts.contains(&(s("/tmp/out"), s("/output"), false)));
    assert!(plan.env_vars.contains(&(s("GEOENGINE_OUTPUT_DIR"), s("/output"))));
    assert!(plan.command[2].contains("--raster /inputs/in.tif"));

    let mut m = JobManager::new(2);
    let id = m.submit(plan, Some(s("/tmp/out")), 100);
    assert_eq!(id, "job-1");
    assert_eq!(state_of(&m, "job-1"), JobState::Queued);
    assert_eq!(m.process_pending(101), vec![s("job-1")]);
    assert_eq!(m.record_exit("job-1", 0, 102).ok().unwrap(), JobState::Completed);
    let files = m.get_output("job-1", vec![file("classified.tif")]).ok().unwrap();
    assert_eq!(files.len(), 1);
    assert_eq!(files[0].name, "classified.tif");
}
