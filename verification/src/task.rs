use vstd::prelude::*;

use crate::state::State;

verus! {

/// A desired unit of container work: identity, lifecycle state and resource
/// envelope.  Timestamps are wall-clock instants in milliseconds; the caller
/// samples the clock and passes the values in.
#[derive(Debug)]
pub struct Task {
    pub id: String,
    pub container_id: Option<String>,
    pub name: String,
    pub state: State,
    pub image: String,
    pub memory: u64,
    pub disk: u64,
    pub exposed_ports: Vec<u16>,
    pub port_bindings: Vec<(String, String)>,
    pub restart_policy: String,
    pub start_time: Option<u64>,
    pub finish_time: Option<u64>,
}

/// The mathematical value of a [`Task`]: every string replaced by its
/// character sequence.
#[verifier::ext_equal]
pub ghost struct TaskView {
    pub id: Seq<char>,
    pub container_id: Option<Seq<char>>,
    pub name: Seq<char>,
    pub state: State,
    pub image: Seq<char>,
    pub memory: u64,
    pub disk: u64,
    pub exposed_ports: Seq<u16>,
    pub port_bindings: Seq<(Seq<char>, Seq<char>)>,
    pub restart_policy: Seq<char>,
    pub start_time: Option<u64>,
    pub finish_time: Option<u64>,
}

impl View for Task {
    type V = TaskView;

    open spec fn view(&self) -> TaskView {
        TaskView {
            id: self.id@,
            container_id: self.container_id.deep_view(),
            name: self.name@,
            state: self.state,
            image: self.image@,
            memory: self.memory,
            disk: self.disk,
            exposed_ports: self.exposed_ports@,
            port_bindings: self.port_bindings.deep_view(),
            restart_policy: self.restart_policy@,
            start_time: self.start_time,
            finish_time: self.finish_time,
        }
    }
}

impl DeepView for Task {
    type V = TaskView;

    open spec fn deep_view(&self) -> TaskView {
        self.view()
    }
}

/// A submission record: the embedded `task` carries the state the worker
/// should drive the identified task toward.
#[derive(Debug)]
pub struct TaskEvent {
    pub task_id: String,
    pub event_type: String,
    pub timestamp: Option<u64>,
    pub task: Task,
}

/// The mathematical value of a [`TaskEvent`].
#[verifier::ext_equal]
pub ghost struct TaskEventView {
    pub task_id: Seq<char>,
    pub event_type: Seq<char>,
    pub timestamp: Option<u64>,
    pub task: TaskView,
}

impl View for TaskEvent {
    type V = TaskEventView;

    open spec fn view(&self) -> TaskEventView {
        TaskEventView {
            task_id: self.task_id@,
            event_type: self.event_type@,
            timestamp: self.timestamp,
            task: self.task@,
        }
    }
}

impl DeepView for TaskEvent {
    type V = TaskEventView;

    open spec fn deep_view(&self) -> TaskEventView {
        self.view()
    }
}

/// The runtime-facing projection of a task.  The processor share is carried
/// as a whole number of nano-cores, the unit the container runtime consumes.
#[derive(Debug)]
pub struct Config {
    pub name: String,
    pub attach_stdin: bool,
    pub attach_stdout: bool,
    pub attach_stderr: bool,
    pub exposed_ports: Vec<(String, Vec<(String, String)>)>,
    pub cmd: Vec<String>,
    pub image: String,
    pub cpu_nanos: i64,
    pub memory: i64,
    pub disk: i64,
    pub env: Vec<String>,
    pub restart_policy: String,
}

/// Derives the runtime configuration of `task`: name, image and restart
/// policy are taken over, every other knob is left at its neutral value.
pub fn new_config(task: Task) -> (c: Config)
    ensures
        c.name == task.name,
        c.image == task.image,
        c.restart_policy == task.restart_policy,
        !c.attach_stdin && !c.attach_stdout && !c.attach_stderr,
        c.exposed_ports@.len() == 0,
        c.cmd@.len() == 0,
        c.cpu_nanos == 0,
        c.memory == 0,
        c.disk == 0,
        c.env@.len() == 0,
{
    Config {
        name: task.name,
        attach_stdin: false,
        attach_stdout: false,
        attach_stderr: false,
        exposed_ports: Vec::new(),
        cmd: Vec::new(),
        image: task.image,
        cpu_nanos: 0,
        memory: 0,
        disk: 0,
        env: Vec::new(),
        restart_policy: task.restart_policy,
    }
}

/// Relies on `uuid::Uuid::new_v4` and its display form: a fresh random
/// version-4 UUID rendered as the 36-character hyphenated lower-case string.
/// The value is random, so nothing beyond its length is promised.
#[verifier::external_body]
fn new_task_id() -> (r: String)
    ensures
        r@.len() == 36,
{
    uuid::Uuid::new_v4().to_string()
}

pub(crate) fn copy_ports(v: &Vec<u16>) -> (r: Vec<u16>)
    ensures
        r@ == v@,
{
    let mut r: Vec<u16> = Vec::new();
    let mut i: usize = 0;
    while i < v.len()
        invariant
            i <= v@.len(),
            r@ == v@.take(i as int),
        decreases v@.len() - i,
    {
        r.push(v[i]);
        proof {
            assert(r@ =~= v@.take(i + 1));
        }
        i = i + 1;
    }
    proof {
        assert(v@.take(v@.len() as int) =~= v@);
    }
    r
}

pub(crate) fn copy_string_pairs(v: &Vec<(String, String)>) -> (r: Vec<(String, String)>)
    ensures
        r.deep_view() == v.deep_view(),
{
    let mut r: Vec<(String, String)> = Vec::new();
    let mut i: usize = 0;
    while i < v.len()
        invariant
            i <= v@.len(),
            r@.len() == i,
            r.deep_view() == v.deep_view().take(i as int),
        decreases v@.len() - i,
    {
        let p = &v[i];
        r.push((p.0.clone(), p.1.clone()));
        proof {
            assert(r.deep_view() =~~= v.deep_view().take(i + 1));
        }
        i = i + 1;
    }
    proof {
        assert(v.deep_view().take(v.deep_view().len() as int) =~= v.deep_view());
    }
    r
}

pub(crate) fn copy_opt_string(v: &Option<String>) -> (r: Option<String>)
    ensures
        r.deep_view() == v.deep_view(),
{
    match v {
        Some(s) => Some(s.clone()),
        None => None,
    }
}

impl Task {
    /// A field-by-field copy with the same mathematical value.
    pub fn duplicate(&self) -> (t: Task)
        ensures
            t@ == self@,
    {
        let t = Task {
            id: self.id.clone(),
            container_id: copy_opt_string(&self.container_id),
            name: self.name.clone(),
            state: self.state,
            image: self.image.clone(),
            memory: self.memory,
            disk: self.disk,
            exposed_ports: copy_ports(&self.exposed_ports),
            port_bindings: copy_string_pairs(&self.port_bindings),
            restart_policy: self.restart_policy.clone(),
            start_time: self.start_time,
            finish_time: self.finish_time,
        };
        proof {
            assert(t@ =~= self@);
        }
        t
    }
}

impl TaskEvent {
    /// A field-by-field copy with the same mathematical value.
    pub fn duplicate(&self) -> (e: TaskEvent)
        ensures
            e@ == self@,
    {
        let e = TaskEvent {
            task_id: self.task_id.clone(),
            event_type: self.event_type.clone(),
            timestamp: self.timestamp,
            task: self.task.duplicate(),
        };
        proof {
            assert(e@ =~= self@);
        }
        e
    }
}

impl Default for Task {
    /// A fresh task: a newly drawn random id, empty strings, no container,
    /// no timestamps, in the `Pending` state.
    fn default() -> (t: Task)
        ensures
            t@.id.len() == 36,
            t@.container_id is None,
            t@.name.len() == 0,
            t@.state == State::Pending,
            t@.image.len() == 0,
            t@.memory == 0,
            t@.disk == 0,
            t@.exposed_ports.len() == 0,
            t@.port_bindings.len() == 0,
            t@.restart_policy.len() == 0,
            t@.start_time is None,
            t@.finish_time is None,
    {
        Task {
            id: new_task_id(),
            container_id: None,
            name: String::new(),
            state: State::Pending,
            image: String::new(),
            memory: 0,
            disk: 0,
            exposed_ports: Vec::new(),
            port_bindings: Vec::new(),
            restart_policy: String::new(),
            start_time: None,
            finish_time: None,
        }
    }
}

impl Default for TaskEvent {
    /// A fresh event: empty labels, no timestamp, a default task inside.
    fn default() -> (e: TaskEvent)
        ensures
            e@.task_id.len() == 0,
            e@.event_type.len() == 0,
            e@.timestamp is None,
            e@.task.state == State::Pending,
            e@.task.container_id is None,
    {
        TaskEvent {
            task_id: String::new(),
            event_type: String::new(),
            timestamp: None,
            task: Task::default(),
        }
    }
}

} // verus!
