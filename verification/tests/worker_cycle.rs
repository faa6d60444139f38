use orchestrator::state::State;
use orchestrator::task::Task;
use orchestrator::worker::{RunAction, Worker, WorkerError};

fn task(id: &str, state: State) -> Task {
    Task {
        id: id.to_string(),
        container_id: None,
        name: format!("task {}", id),
        state,
        image: "busybox:latest".to_string(),
        memory: 0,
        disk: 0,
        exposed_ports: Vec::new(),
        port_bindings: Vec::new(),
        restart_policy: String::new(),
        start_time: None,
        finish_time: None,
    }
}

fn db_record<'a>(w: &'a Worker, id: &str) -> &'a Task {
    w.db.iter().find(|t| t.id == id).expect("record present")
}

#[test]
fn new_worker_is_empty() {
    let w = Worker::new("default_worker");
    assert_eq!(w.name, "default_worker");
    assert!(w.queue.is_empty());
    assert!(w.db.is_empty());
    assert_eq!(w.task_count, 0);
}

#[test]
fn add_task_appends_in_order() {
    let mut w = Worker::new("w");
    w.add_task(task("a", State::Scheduled));
    w.add_task(task("b", State::Scheduled));
    assert_eq!(w.queue.len(), 2);
    assert_eq!(w.queue[0].id, "a");
    assert_eq!(w.queue[1].id, "b");
}

#[test]
fn run_task_on_empty_queue_reports_it() {
    let mut w = Worker::new("w");
    match w.run_task(0) {
        Err(WorkerError::NoTasksInQueue) => {}
        other => panic!("expected NoTasksInQueue, got {:?}", other),
    }
}

#[test]
fn scheduled_task_yields_start_action_with_start_time() {
    let mut w = Worker::new("w");
    w.add_task(task("t1", State::Scheduled));
    match w.run_task(42).unwrap() {
        RunAction::Start { task } => {
            assert_eq!(task.id, "t1");
            assert_eq!(task.start_time, Some(42));
        }
        other => panic!("expected a start action, got {:?}", other),
    }
    // The popped task was persisted as-is before the runtime ran.
    assert_eq!(db_record(&w, "t1").state, State::Scheduled);
    assert!(w.queue.is_empty());
}

#[test]
fn illegal_transition_is_rejected_and_db_untouched() {
    let mut w = Worker::new("w");
    let mut done = task("t2", State::Completed);
    done.container_id = Some("c-t2".to_string());
    w.db.push(done);

    w.add_task(task("t2", State::Running));
    match w.run_task(0) {
        Err(WorkerError::InvalidStateTransition(_)) => {}
        other => panic!("expected InvalidStateTransition, got {:?}", other),
    }
    assert_eq!(db_record(&w, "t2").state, State::Completed);
    assert!(w.queue.is_empty());
}

#[test]
fn pending_target_state_is_not_runnable() {
    let mut w = Worker::new("w");
    w.db.push(task("t9", State::Pending));
    w.add_task(task("t9", State::Scheduled));
    // Pending -> Scheduled is a legal transition, so the task starts.
    assert!(matches!(w.run_task(0), Ok(RunAction::Start { .. })));

    // But a popped task whose own state is Pending is not executable.
    let mut w2 = Worker::new("w2");
    w2.add_task(task("t10", State::Pending));
    match w2.run_task(0) {
        Err(WorkerError::InvalidStateTransition(_)) => {}
        other => panic!("expected InvalidStateTransition, got {:?}", other),
    }
}

#[test]
fn start_then_stop_cycle_updates_the_record() {
    let mut w = Worker::new("w");
    w.add_task(task("t3", State::Scheduled));

    // Tick one: the task starts.
    let started = match w.run_task(100).unwrap() {
        RunAction::Start { task } => task,
        other => panic!("expected a start action, got {:?}", other),
    };
    w.finish_start_task(started, "c-t3".to_string(), 100);
    {
        let rec = db_record(&w, "t3");
        assert_eq!(rec.state, State::Running);
        assert_eq!(rec.container_id.as_deref(), Some("c-t3"));
        assert_eq!(rec.start_time, Some(100));
    }

    // A stop request goes through the queue, like the delete endpoint does.
    let found = w.enqueue_stop(&"t3".to_string());
    assert!(found);
    assert_eq!(w.queue.len(), 1);
    assert_eq!(w.queue[0].state, State::Completed);

    // Tick two: the task stops.
    let stopping = match w.run_task(200).unwrap() {
        RunAction::Stop { task } => task,
        other => panic!("expected a stop action, got {:?}", other),
    };
    let cid = Worker::stop_container_id(&stopping).unwrap();
    assert_eq!(cid, "c-t3");
    w.finish_stop_task(stopping, 200);

    let rec = db_record(&w, "t3");
    assert_eq!(rec.state, State::Completed);
    assert_eq!(rec.finish_time, Some(200));
    assert!(rec.finish_time >= rec.start_time);
}

#[test]
fn stop_without_container_id_is_a_client_error() {
    let t = task("t5", State::Completed);
    match Worker::stop_container_id(&t) {
        Err(WorkerError::DockerClientError(_)) => {}
        other => panic!("expected DockerClientError, got {:?}", other),
    }
}

#[test]
fn enqueue_stop_unknown_id_changes_nothing() {
    let mut w = Worker::new("w");
    w.db.push(task("known", State::Running));
    let found = w.enqueue_stop(&"unknown".to_string());
    assert!(!found);
    assert!(w.queue.is_empty());
    assert_eq!(w.db.len(), 1);
}

#[test]
fn get_tasks_returns_exactly_the_persisted_records() {
    let mut w = Worker::new("w");
    w.add_task(task("a", State::Scheduled));
    w.add_task(task("b", State::Scheduled));
    // Drive both through a start so they land in the db.
    for now in [1u64, 2] {
        let started = match w.run_task(now).unwrap() {
            RunAction::Start { task } => task,
            other => panic!("expected a start action, got {:?}", other),
        };
        let cid = format!("c-{}", started.id);
        w.finish_start_task(started, cid, now);
    }
    let mut ids: Vec<String> = w.get_tasks().into_iter().map(|t| t.id).collect();
    ids.sort();
    assert_eq!(ids, vec!["a".to_string(), "b".to_string()]);
    for t in w.get_tasks() {
        assert_eq!(t.state, State::Running);
    }
}

#[test]
fn completed_resubmission_is_rejected_as_terminal() {
    let mut w = Worker::new("w");
    let mut done = task("t7", State::Completed);
    done.container_id = Some("c-t7".to_string());
    w.db.push(done);

    // The same Completed state again: the terminal state admits no
    // transition, not even onto itself.
    let mut again = task("t7", State::Completed);
    again.container_id = Some("c-t7".to_string());
    w.add_task(again);
    match w.run_task(0) {
        Err(WorkerError::InvalidStateTransition(_)) => {}
        other => panic!("expected InvalidStateTransition, got {:?}", other),
    }
    assert_eq!(db_record(&w, "t7").state, State::Completed);
}
