use vstd::prelude::*;
use vstd::pervasive::VecAdditionalExecFns;

use std::collections::VecDeque;

use crate::docker::DockerError;
use crate::state::{transition_allowed, valid_state_transition, State};
use crate::task::{Task, TaskView};

verus! {

/// Failures of the worker's own reconciliation step.
#[derive(Debug, Clone, PartialEq, Eq)]
pub enum WorkerError {
    NoTasksInQueue,
    InvalidStateTransition(String),
    DockerClientError(String),
}

impl WorkerError {
    /// The human-readable text of this error.
    pub fn message(&self) -> (r: String)
        ensures
            (match self {
                WorkerError::NoTasksInQueue => r@ == "No tasks in the queue"@,
                WorkerError::InvalidStateTransition(msg) => r@
                    == "Invalid state transition: "@ + msg@,
                WorkerError::DockerClientError(msg) => r@ == "Docker client error: "@ + msg@,
            }),
    {
        match self {
            WorkerError::NoTasksInQueue => "No tasks in the queue".to_owned(),
            WorkerError::InvalidStateTransition(msg) => {
                let mut r = "Invalid state transition: ".to_owned();
                r.append(msg.as_str());
                r
            },
            WorkerError::DockerClientError(msg) => {
                let mut r = "Docker client error: ".to_owned();
                r.append(msg.as_str());
                r
            },
        }
    }

    /// Lifts a worker failure to the runtime error taxonomy: every variant
    /// becomes a client-side error, keeping its detail text.
    pub fn into_docker_error(self) -> (e: DockerError)
        ensures
            (match self {
                WorkerError::NoTasksInQueue => e matches DockerError::ClientError(m)
                    && m@ == "No tasks in queue"@,
                WorkerError::InvalidStateTransition(msg) => e matches DockerError::ClientError(m)
                    && m@ == "Invalid state transition: "@ + msg@,
                WorkerError::DockerClientError(msg) => e == DockerError::ClientError(msg),
            }),
    {
        match self {
            WorkerError::NoTasksInQueue => {
                DockerError::ClientError("No tasks in queue".to_owned())
            },
            WorkerError::InvalidStateTransition(msg) => {
                let mut m = "Invalid state transition: ".to_owned();
                m.append(msg.as_str());
                DockerError::ClientError(m)
            },
            WorkerError::DockerClientError(msg) => DockerError::ClientError(msg),
        }
    }
}

/// A printable name for each lifecycle state.
pub fn state_label(s: &State) -> (r: &'static str)
    ensures
        (match s {
            State::Pending => r@ == "Pending"@,
            State::Scheduled => r@ == "Scheduled"@,
            State::Running => r@ == "Running"@,
            State::Completed => r@ == "Completed"@,
            State::Failed => r@ == "Failed"@,
        }),
{
    match s {
        State::Pending => "Pending",
        State::Scheduled => "Scheduled",
        State::Running => "Running",
        State::Completed => "Completed",
        State::Failed => "Failed",
    }
}

/// No two records of the task database share an id.
pub open spec fn ids_unique(db: Seq<TaskView>) -> bool {
    forall|i: int, j: int| 0 <= i < j < db.len() ==> db[i].id != db[j].id
}

/// Whether the database holds a record under `id`.
pub open spec fn has_task(db: Seq<TaskView>, id: Seq<char>) -> bool {
    exists|i: int| 0 <= i < db.len() && db[i].id == id
}

/// The position of the record under `id` (meaningful when `ids_unique` holds
/// and the id is present).
pub open spec fn task_index(db: Seq<TaskView>, id: Seq<char>) -> int {
    choose|i: int| 0 <= i < db.len() && db[i].id == id
}

/// The record persisted under `id`.
pub open spec fn task_record(db: Seq<TaskView>, id: Seq<char>) -> TaskView {
    db[task_index(db, id)]
}

/// The database after writing `t` under its id: an update in place when the
/// id is present, an append otherwise.
pub open spec fn db_upsert(db: Seq<TaskView>, t: TaskView) -> Seq<TaskView> {
    if has_task(db, t.id) {
        db.update(task_index(db, t.id), t)
    } else {
        db.push(t)
    }
}

/// When record `i` exists, it is the one its id resolves to.
pub proof fn lemma_task_index_of(db: Seq<TaskView>, i: int)
    requires
        ids_unique(db),
        0 <= i < db.len(),
    ensures
        has_task(db, db[i].id),
        task_index(db, db[i].id) == i,
{
    assert(has_task(db, db[i].id)) by {
        assert(0 <= i < db.len() && db[i].id == db[i].id);
    }
    let j = task_index(db, db[i].id);
    if j < i {
        assert(db[j].id != db[i].id);
    } else if i < j {
        assert(db[i].id != db[j].id);
    }
}

/// An upsert keeps ids unique, and afterwards the written record is what its
/// id resolves to.
pub proof fn lemma_db_upsert(db: Seq<TaskView>, t: TaskView)
    requires
        ids_unique(db),
    ensures
        ids_unique(db_upsert(db, t)),
        has_task(db_upsert(db, t), t.id),
        task_record(db_upsert(db, t), t.id) == t,
{
    let db2 = db_upsert(db, t);
    if has_task(db, t.id) {
        let i = task_index(db, t.id);
        assert(0 <= i < db.len() && db[i].id == t.id);
        assert(forall|k: int| 0 <= k < db2.len() && k != i ==> db2[k] == db[k]);
        assert(ids_unique(db2));
        lemma_task_index_of(db2, i);
    } else {
        assert(forall|k: int| 0 <= k < db.len() ==> db2[k] == db[k]);
        assert(ids_unique(db2)) by {
            assert(forall|i: int, j: int| 0 <= i < j < db2.len() && j < db.len()
                ==> db2[i].id != db2[j].id);
            assert(forall|i: int| 0 <= i < db.len() ==> db2[i].id != t.id);
        }
        lemma_task_index_of(db2, db.len() as int);
    }
}

/// Looks up the position of the record stored under `id`.
fn find_task(db: &Vec<Task>, id: &String) -> (r: Option<usize>)
    ensures
        (match r {
            Some(i) => i < db@.len() && db.deep_view()[i as int].id == id@,
            None => !has_task(db.deep_view(), id@),
        }),
{
    let mut i: usize = 0;
    while i < db.len()
        invariant
            i <= db@.len(),
            forall|j: int| 0 <= j < i ==> db.deep_view()[j].id != id@,
        decreases db@.len() - i,
    {
        if db[i].id == *id {
            assert(db.deep_view()[i as int].id == id@);
            return Some(i);
        }
        i = i + 1;
    }
    None
}

/// Writes `t` into the database under its id.
fn upsert_task(db: &mut Vec<Task>, t: Task)
    requires
        ids_unique(old(db).deep_view()),
    ensures
        final(db).deep_view() == db_upsert(old(db).deep_view(), t@),
        ids_unique(final(db).deep_view()),
{
    let ghost db0 = db.deep_view();
    proof {
        lemma_db_upsert(db0, t@);
    }
    match find_task(db, &t.id) {
        Some(i) => {
            proof {
                lemma_task_index_of(db0, i as int);
            }
            db.set(i, t);
            proof {
                assert(db.deep_view() =~~= db_upsert(db0, t@));
            }
        },
        None => {
            db.push(t);
            proof {
                assert(db.deep_view() =~~= db_upsert(db0, t@));
            }
        },
    }
}

/// The node-local actor: a FIFO queue of incoming tasks and the authoritative
/// per-task records.  The record store is a vector whose entries carry their
/// key in the `id` field, with uniqueness of ids as its invariant.
#[derive(Debug)]
pub struct Worker {
    pub name: String,
    pub queue: VecDeque<Task>,
    pub db: Vec<Task>,
    pub task_count: u64,
}

/// The mathematical value of a [`Worker`].
#[verifier::ext_equal]
pub ghost struct WorkerView {
    pub name: Seq<char>,
    pub queue: Seq<TaskView>,
    pub db: Seq<TaskView>,
    pub task_count: u64,
}

impl View for Worker {
    type V = WorkerView;

    open spec fn view(&self) -> WorkerView {
        WorkerView {
            name: self.name@,
            queue: self.queue.deep_view(),
            db: self.db.deep_view(),
            task_count: self.task_count,
        }
    }
}

/// What the reconciliation step asks of the container runtime for the task
/// it popped: start its container, or stop it.
#[derive(Debug)]
pub enum RunAction {
    Start { task: Task },
    Stop { task: Task },
}

/// The task as persisted after a successful container start: running, under
/// the new container id, stamped with the time the start finished.
pub open spec fn started_record(t: TaskView, container_id: Seq<char>, now_millis: u64) -> TaskView {
    TaskView {
        state: State::Running,
        container_id: Some(container_id),
        finish_time: Some(now_millis),
        ..t
    }
}

/// The task as persisted after a successful container stop.
pub open spec fn stopped_record(t: TaskView, now_millis: u64) -> TaskView {
    TaskView { state: State::Completed, finish_time: Some(now_millis), ..t }
}

impl Worker {
    /// Ids in the task database never repeat.
    pub open spec fn wf(self) -> bool {
        ids_unique(self@.db)
    }

    /// A fresh worker: empty queue, empty database, zero tasks run.
    pub fn new(name: &str) -> (w: Worker)
        ensures
            w@.name == name@,
            w@.queue.len() == 0,
            w@.db.len() == 0,
            w@.task_count == 0,
            w.wf(),
    {
        let w = Worker {
            name: name.to_owned(),
            queue: VecDeque::new(),
            db: Vec::new(),
            task_count: 0,
        };
        proof {
            assert(w@.queue =~= Seq::<TaskView>::empty());
            assert(w@.db =~= Seq::<TaskView>::empty());
        }
        w
    }

    /// Appends `task` at the tail of the queue; nothing else changes.
    pub fn add_task(&mut self, task: Task)
        ensures
            final(self)@ == (WorkerView {
                queue: old(self)@.queue.push(task@),
                ..old(self)@
            }),
    {
        let ghost q0 = self.queue.deep_view();
        let ghost t = task@;
        self.queue.push_back(task);
        proof {
            assert(self.queue.deep_view() =~~= q0.push(t));
        }
    }

    /// A snapshot copy of the persisted records, in storage order.
    pub fn get_tasks(&self) -> (r: Vec<Task>)
        ensures
            r.deep_view() == self@.db,
    {
        let mut r: Vec<Task> = Vec::new();
        let mut i: usize = 0;
        while i < self.db.len()
            invariant
                i <= self.db@.len(),
                r@.len() == i,
                r.deep_view() == self.db.deep_view().take(i as int),
            decreases self.db@.len() - i,
        {
            r.push(self.db[i].duplicate());
            proof {
                assert(r.deep_view() =~~= self.db.deep_view().take(i + 1));
            }
            i = i + 1;
        }
        proof {
            assert(self.db.deep_view().take(self.db@.len() as int) =~~= self.db.deep_view());
        }
        r
    }

    /// One reconciliation step over the head of the queue: pop it, persist it
    /// if its id is new, validate the requested transition against the
    /// persisted record, and say which runtime action to take.  A `Scheduled`
    /// request becomes a start (stamped with `now_millis` as its start time),
    /// a `Completed` request becomes a stop, anything else is rejected
    /// without touching the runtime.
    pub fn run_task(&mut self, now_millis: u64) -> (r: Result<RunAction, WorkerError>)
        requires
            old(self).wf(),
        ensures
            final(self).wf(),
            old(self)@.queue.len() == 0 ==> final(self)@ == old(self)@
                && (r matches Err(e) && e is NoTasksInQueue),
            old(self)@.queue.len() > 0 ==> {
                let t = old(self)@.queue[0];
                let db1 = if has_task(old(self)@.db, t.id) {
                    old(self)@.db
                } else {
                    old(self)@.db.push(t)
                };
                let persisted = if has_task(old(self)@.db, t.id) {
                    task_record(old(self)@.db, t.id)
                } else {
                    t
                };
                &&& final(self)@ == (WorkerView {
                    queue: old(self)@.queue.drop_first(),
                    db: db1,
                    ..old(self)@
                })
                &&& if !transition_allowed(persisted.state, t.state) {
                    r matches Err(e) && e is InvalidStateTransition
                } else if t.state == State::Scheduled {
                    r matches Ok(a) && a matches RunAction::Start { task }
                        && task@ == (TaskView { start_time: Some(now_millis), ..t })
                } else if t.state == State::Completed {
                    r matches Ok(a) && a matches RunAction::Stop { task } && task@ == t
                } else {
                    r matches Err(e) && e is InvalidStateTransition
                }
            },
    {
        let ghost w0 = self@;
        let popped = match self.queue.pop_front() {
            Some(task) => task,
            None => {
                return Err(WorkerError::NoTasksInQueue);
            },
        };
        proof {
            assert(self.queue.deep_view() =~~= w0.queue.drop_first());
        }
        let persisted_state: State = match find_task(&self.db, &popped.id) {
            Some(i) => {
                proof {
                    lemma_task_index_of(w0.db, i as int);
                }
                self.db[i].state
            },
            None => {
                let copy = popped.duplicate();
                self.db.push(copy);
                proof {
                    assert(forall|k: int| 0 <= k < w0.db.len()
                        ==> self.db.deep_view()[k] == w0.db[k]);
                    assert(self.db.deep_view() =~~= w0.db.push(popped@));
                    assert(ids_unique(self.db.deep_view())) by {
                        assert(forall|i: int| 0 <= i < w0.db.len()
                            ==> w0.db[i].id != popped@.id);
                    }
                }
                popped.state
            },
        };
        if !valid_state_transition(&persisted_state, &popped.state) {
            let mut detail = "Invalid transition from ".to_owned();
            detail.append(state_label(&persisted_state));
            detail.append(" to ");
            detail.append(state_label(&popped.state));
            return Err(WorkerError::InvalidStateTransition(detail));
        }
        match popped.state {
            State::Scheduled => {
                let mut task = popped;
                task.start_time = Some(now_millis);
                proof {
                    assert(task@ =~= (TaskView { start_time: Some(now_millis), ..w0.queue[0] }));
                }
                Ok(RunAction::Start { task })
            },
            State::Completed => Ok(RunAction::Stop { task: popped }),
            _ => {
                let mut detail = "Invalid state ".to_owned();
                detail.append(state_label(&popped.state));
                detail.append(" for execution");
                Err(WorkerError::InvalidStateTransition(detail))
            },
        }
    }

    /// The container a stop request acts on: the task's recorded container
    /// id, or a client error when the task never ran.
    pub fn stop_container_id(task: &Task) -> (r: Result<String, WorkerError>)
        ensures
            (match r {
                Ok(cid) => task@.container_id == Some(cid@),
                Err(e) => e is DockerClientError && task@.container_id is None,
            }),
    {
        match &task.container_id {
            Some(cid) => Ok(cid.clone()),
            None => {
                let mut detail = "Task ".to_owned();
                detail.append(task.id.as_str());
                detail.append(" has no container_id for stop operation");
                Err(WorkerError::DockerClientError(detail))
            },
        }
    }

    /// Records a successful container start: the persisted record under the
    /// task's id becomes the task marked `Running`, carrying the new
    /// container id and `now_millis` as its completion stamp.
    pub fn finish_start_task(&mut self, task: Task, container_id: String, now_millis: u64)
        requires
            old(self).wf(),
        ensures
            final(self).wf(),
            final(self)@ == (WorkerView {
                db: db_upsert(old(self)@.db, started_record(task@, container_id@, now_millis)),
                ..old(self)@
            }),
    {
        let ghost t0 = task@;
        let ghost cid = container_id@;
        let mut task = task;
        task.state = State::Running;
        task.container_id = Some(container_id);
        task.finish_time = Some(now_millis);
        proof {
            assert(task@ =~= started_record(t0, cid, now_millis));
        }
        upsert_task(&mut self.db, task);
    }

    /// Records a successful container stop: the persisted record under the
    /// task's id becomes the task marked `Completed`, stamped `now_millis`.
    pub fn finish_stop_task(&mut self, task: Task, now_millis: u64)
        requires
            old(self).wf(),
        ensures
            final(self).wf(),
            final(self)@ == (WorkerView {
                db: db_upsert(old(self)@.db, stopped_record(task@, now_millis)),
                ..old(self)@
            }),
    {
        let ghost t0 = task@;
        let mut task = task;
        task.state = State::Completed;
        task.finish_time = Some(now_millis);
        proof {
            assert(task@ =~= stopped_record(t0, now_millis));
        }
        upsert_task(&mut self.db, task);
    }

    /// Requests a stop of the task stored under `id` through the regular
    /// reconciliation path: a copy of its record, marked `Completed`, is
    /// appended to the queue.  Returns false, changing nothing, when no such
    /// record exists.
    pub fn enqueue_stop(&mut self, id: &String) -> (found: bool)
        requires
            old(self).wf(),
        ensures
            final(self).wf(),
            !has_task(old(self)@.db, id@) ==> !found && final(self)@ == old(self)@,
            has_task(old(self)@.db, id@) ==> found && final(self)@ == (WorkerView {
                queue: old(self)@.queue.push(
                    (TaskView { state: State::Completed, ..task_record(old(self)@.db, id@) }),
                ),
                ..old(self)@
            }),
    {
        let ghost w0 = self@;
        match find_task(&self.db, id) {
            Some(i) => {
                proof {
                    lemma_task_index_of(w0.db, i as int);
                }
                let mut copy = self.db[i].duplicate();
                copy.state = State::Completed;
                proof {
                    assert(copy@ =~= (TaskView {
                        state: State::Completed,
                        ..task_record(w0.db, id@)
                    }));
                }
                self.queue.push_back(copy);
                proof {
                    assert(self.queue.deep_view() =~~= w0.queue.push(
                        (TaskView { state: State::Completed, ..task_record(w0.db, id@) }),
                    ));
                }
                true
            },
            None => false,
        }
    }
}

/// After a recorded successful start, the record persisted under the task's
/// id is `Running` and carries the container id.
pub proof fn lemma_start_persists_running(db: Seq<TaskView>, t: TaskView, cid: Seq<char>, now: u64)
    requires
        ids_unique(db),
    ensures
        has_task(db_upsert(db, started_record(t, cid, now)), t.id),
        task_record(db_upsert(db, started_record(t, cid, now)), t.id).state == State::Running,
        task_record(db_upsert(db, started_record(t, cid, now)), t.id).container_id == Some(cid),
{
    lemma_db_upsert(db, started_record(t, cid, now));
}

/// After a recorded successful stop, the record persisted under the task's
/// id is `Completed`, and its finish stamp is no earlier than its start
/// stamp whenever the stop is recorded after the start.
pub proof fn lemma_stop_persists_completed(db: Seq<TaskView>, t: TaskView, now: u64)
    requires
        ids_unique(db),
        t.start_time matches Some(s) ==> s <= now,
    ensures
        has_task(db_upsert(db, stopped_record(t, now)), t.id),
        task_record(db_upsert(db, stopped_record(t, now)), t.id).state == State::Completed,
        task_record(db_upsert(db, stopped_record(t, now)), t.id).finish_time == Some(now),
        (task_record(db_upsert(db, stopped_record(t, now)), t.id).start_time matches Some(s)
            ==> s <= now),
{
    lemma_db_upsert(db, stopped_record(t, now));
}

} // verus!
