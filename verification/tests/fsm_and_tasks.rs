use orchestrator::docker::{run_failure, start_response, stop_outcome, DockerError, RunPhase};
use orchestrator::state::{valid_state_transition, State};
use orchestrator::task::{new_config, Task, TaskEvent};
use orchestrator::worker::WorkerError;

fn task(id: &str, state: State) -> Task {
    Task {
        id: id.to_string(),
        container_id: None,
        name: format!("task {}", id),
        state,
        image: "busybox:latest".to_string(),
        memory: 0,
        disk: 0,
        exposed_ports: Vec::new(),
        port_bindings: Vec::new(),
        restart_policy: String::new(),
        start_time: None,
        finish_time: None,
    }
}

#[test]
fn transition_table_matches_design() {
    let all = [
        State::Pending,
        State::Scheduled,
        State::Running,
        State::Completed,
        State::Failed,
    ];
    for dst in all {
        assert_eq!(valid_state_transition(&State::Pending, &dst), dst == State::Scheduled);
        assert_eq!(
            valid_state_transition(&State::Scheduled, &dst),
            dst == State::Scheduled || dst == State::Running || dst == State::Failed
        );
        assert_eq!(
            valid_state_transition(&State::Running, &dst),
            dst == State::Running || dst == State::Completed || dst == State::Failed
        );
        assert!(!valid_state_transition(&State::Completed, &dst));
        assert!(!valid_state_transition(&State::Failed, &dst));
    }
}

#[test]
fn terminal_states_reject_even_self_loops() {
    assert!(!valid_state_transition(&State::Completed, &State::Completed));
    assert!(!valid_state_transition(&State::Failed, &State::Failed));
}

#[test]
fn default_task_is_fresh_and_pending() {
    let t = Task::default();
    assert_eq!(t.id.len(), 36);
    assert_eq!(t.state, State::Pending);
    assert!(t.container_id.is_none());
    assert!(t.name.is_empty());
    assert!(t.start_time.is_none());
    assert!(t.finish_time.is_none());
    let u = Task::default();
    assert_ne!(t.id, u.id, "two fresh tasks should draw distinct ids");
}

#[test]
fn default_event_is_empty() {
    let e = TaskEvent::default();
    assert!(e.task_id.is_empty());
    assert!(e.event_type.is_empty());
    assert!(e.timestamp.is_none());
    assert_eq!(e.task.state, State::Pending);
}

#[test]
fn config_projection_takes_three_fields() {
    let mut t = task("cfg", State::Scheduled);
    t.restart_policy = "always".to_string();
    let c = new_config(t);
    assert_eq!(c.name, "task cfg");
    assert_eq!(c.image, "busybox:latest");
    assert_eq!(c.restart_policy, "always");
    assert_eq!(c.cpu_nanos, 0);
    assert_eq!(c.memory, 0);
    assert_eq!(c.disk, 0);
    assert!(c.env.is_empty());
    assert!(c.cmd.is_empty());
    assert!(c.exposed_ports.is_empty());
    assert!(!c.attach_stdin && !c.attach_stdout && !c.attach_stderr);
}

#[test]
fn duplicate_preserves_every_field() {
    let mut t = task("dup", State::Running);
    t.container_id = Some("c-77".to_string());
    t.exposed_ports = vec![80, 443];
    t.port_bindings = vec![("80".to_string(), "8080".to_string())];
    t.start_time = Some(5);
    t.finish_time = Some(9);
    let d = t.duplicate();
    assert_eq!(d.id, t.id);
    assert_eq!(d.container_id, t.container_id);
    assert_eq!(d.name, t.name);
    assert_eq!(d.state, t.state);
    assert_eq!(d.image, t.image);
    assert_eq!(d.exposed_ports, t.exposed_ports);
    assert_eq!(d.port_bindings, t.port_bindings);
    assert_eq!(d.start_time, t.start_time);
    assert_eq!(d.finish_time, t.finish_time);
}

#[test]
fn run_failure_picks_the_phase_error() {
    assert_eq!(
        run_failure(RunPhase::Pull, "p".to_string()),
        DockerError::ImagePullError("p".to_string())
    );
    assert_eq!(
        run_failure(RunPhase::Create, "c".to_string()),
        DockerError::ContainerCreationError("c".to_string())
    );
    assert_eq!(
        run_failure(RunPhase::Start, "s".to_string()),
        DockerError::ContainerStartError("s".to_string())
    );
}

#[test]
fn start_response_labels_start() {
    let r = start_response("abc".to_string());
    assert!(r.error.is_none());
    assert_eq!(r.action.as_deref(), Some("Start"));
    assert_eq!(r.container_id.as_deref(), Some("abc"));
}

#[test]
fn stop_outcome_success_and_failure() {
    let ok = stop_outcome("abc".to_string(), Ok(())).unwrap();
    assert!(ok.error.is_none());
    assert_eq!(ok.action.as_deref(), Some("Stop"));
    assert_eq!(ok.container_id.as_deref(), Some("abc"));

    let err = stop_outcome("abc".to_string(), Err("boom".to_string())).unwrap_err();
    assert_eq!(err, DockerError::ContainerStopError("boom".to_string()));
}

#[test]
fn worker_error_becomes_client_error() {
    assert_eq!(
        WorkerError::NoTasksInQueue.into_docker_error(),
        DockerError::ClientError("No tasks in queue".to_string())
    );
    assert_eq!(
        WorkerError::InvalidStateTransition("x".to_string()).into_docker_error(),
        DockerError::ClientError("Invalid state transition: x".to_string())
    );
    assert_eq!(
        WorkerError::DockerClientError("y".to_string()).into_docker_error(),
        DockerError::ClientError("y".to_string())
    );
}

#[test]
fn error_messages_match_display_texts() {
    assert_eq!(
        WorkerError::NoTasksInQueue.message(),
        "No tasks in the queue"
    );
    assert_eq!(
        WorkerError::InvalidStateTransition("bad".to_string()).message(),
        "Invalid state transition: bad"
    );
    assert_eq!(
        DockerError::ImagePullError("nope".to_string()).message(),
        "Docker image pull error: nope"
    );
    assert_eq!(
        DockerError::ContainerStopError("halt".to_string()).message(),
        "Container stop error: halt"
    );
}
