use orchestrator::manager::Manager;
use orchestrator::state::State;
use orchestrator::task::{Task, TaskEvent};
use orchestrator::worker::{RunAction, Worker};

fn event(id: &str, name: &str, state: State) -> TaskEvent {
    TaskEvent {
        task_id: id.to_string(),
        event_type: "submit".to_string(),
        timestamp: Some(1),
        task: Task {
            id: id.to_string(),
            container_id: None,
            name: name.to_string(),
            state,
            image: "busybox:latest".to_string(),
            memory: 0,
            disk: 0,
            exposed_ports: Vec::new(),
            port_bindings: Vec::new(),
            restart_policy: String::new(),
            start_time: None,
            finish_time: None,
        },
    }
}

#[test]
fn dispatched_event_reads_back_from_the_worker() {
    let mut manager = Manager::new(vec!["w:9".to_string()]);
    let mut worker = Worker::new("w:9");

    manager.add_task(event("t1", "hello task", State::Scheduled));
    let (endpoint, sent) = manager.send_work().unwrap().expect("an event was pending");
    assert_eq!(endpoint, "w:9");

    // The application would POST the event to the worker; here it is handed
    // over directly, then one reconciliation tick runs.
    worker.add_task(sent.task);
    let started = match worker.run_task(10).unwrap() {
        RunAction::Start { task } => task,
        other => panic!("expected a start action, got {:?}", other),
    };
    worker.finish_start_task(started, "c-t1".to_string(), 10);

    let read_back = worker.get_tasks();
    assert_eq!(read_back.len(), 1);
    assert_eq!(read_back[0].id, "t1");
    assert_eq!(read_back[0].name, "hello task");
    assert_eq!(read_back[0].state, State::Running);

    // The reconciler folds the observed state back into the manager's view.
    manager.update_task(&read_back);
    assert_eq!(manager.task_db[0].1.state, State::Running);
    assert_eq!(manager.task_db[0].1.container_id.as_deref(), Some("c-t1"));
}
