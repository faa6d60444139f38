use vstd::arithmetic::div_mod::{
    lemma_fundamental_div_mod, lemma_fundamental_div_mod_converse, lemma_mod_add_multiples_vanish,
    lemma_mod_bound, lemma_mod_multiples_vanish, lemma_small_mod,
};
use vstd::prelude::*;
use vstd::pervasive::VecAdditionalExecFns;

use std::collections::VecDeque;

use crate::task::{Task, TaskEvent, TaskEventView, TaskView};

verus! {

/// Failures of the manager's dispatch path.
#[derive(Debug, Clone, PartialEq, Eq)]
pub enum ManagerError {
    NoWorkersAvailable,
    WorkerCommunication(String),
    NetworkError(String),
}

impl ManagerError {
    /// The human-readable text of this error.
    pub fn message(&self) -> (r: String)
        ensures
            (match self {
                ManagerError::NoWorkersAvailable => r@
                    == "No workers are available to handle tasks"@,
                ManagerError::WorkerCommunication(msg) => r@
                    == "Worker communication failed: "@ + msg@,
                ManagerError::NetworkError(msg) => r@ == "Network error: "@ + msg@,
            }),
    {
        match self {
            ManagerError::NoWorkersAvailable => {
                "No workers are available to handle tasks".to_owned()
            },
            ManagerError::WorkerCommunication(msg) => {
                let mut r = "Worker communication failed: ".to_owned();
                r.append(msg.as_str());
                r
            },
            ManagerError::NetworkError(msg) => {
                let mut r = "Network error: ".to_owned();
                r.append(msg.as_str());
                r
            },
        }
    }
}

/// The result of a manager operation.
pub type ManagerResult<T> = Result<T, ManagerError>;

/// Whether the association list `m` holds an entry under key `k`.
pub open spec fn kv_has<V>(m: Seq<(Seq<char>, V)>, k: Seq<char>) -> bool {
    exists|i: int| 0 <= i < m.len() && m[i].0 == k
}

/// The position of the entry under `k` (meaningful when keys are unique and
/// the key is present).
pub open spec fn kv_index<V>(m: Seq<(Seq<char>, V)>, k: Seq<char>) -> int {
    choose|i: int| 0 <= i < m.len() && m[i].0 == k
}

/// The value stored under `k`.
pub open spec fn kv_value<V>(m: Seq<(Seq<char>, V)>, k: Seq<char>) -> V {
    m[kv_index(m, k)].1
}

/// No two entries share a key.
pub open spec fn kv_keys_unique<V>(m: Seq<(Seq<char>, V)>) -> bool {
    forall|i: int, j: int| 0 <= i < j < m.len() ==> m[i].0 != m[j].0
}

/// The list after writing `v` under `k`: an update in place when the key is
/// present, an append otherwise.
pub open spec fn kv_upsert<V>(m: Seq<(Seq<char>, V)>, k: Seq<char>, v: V) -> Seq<(Seq<char>, V)> {
    if kv_has(m, k) {
        m.update(kv_index(m, k), (k, v))
    } else {
        m.push((k, v))
    }
}

/// The worker-to-tasks index after recording that `id` was dispatched to
/// `w`: `id` joins `w`'s list, which is created if absent.
pub open spec fn wtm_append(
    m: Seq<(Seq<char>, Seq<Seq<char>>)>,
    w: Seq<char>,
    id: Seq<char>,
) -> Seq<(Seq<char>, Seq<Seq<char>>)> {
    kv_upsert(m, w, if kv_has(m, w) { kv_value(m, w).push(id) } else { seq![id] })
}

/// When entry `i` exists, it is the one its key resolves to.
pub proof fn lemma_kv_index_of<V>(m: Seq<(Seq<char>, V)>, i: int)
    requires
        kv_keys_unique(m),
        0 <= i < m.len(),
    ensures
        kv_has(m, m[i].0),
        kv_index(m, m[i].0) == i,
{
    assert(kv_has(m, m[i].0)) by {
        assert(0 <= i < m.len() && m[i].0 == m[i].0);
    }
    let j = kv_index(m, m[i].0);
    if j < i {
        assert(m[j].0 != m[i].0);
    } else if i < j {
        assert(m[i].0 != m[j].0);
    }
}

/// How an upsert answers later lookups: the written key now resolves to the
/// written value, every other key is untouched, and keys stay unique.
pub proof fn lemma_kv_upsert_lookup<V>(m: Seq<(Seq<char>, V)>, key: Seq<char>, v: V, k: Seq<char>)
    requires
        kv_keys_unique(m),
    ensures
        kv_keys_unique(kv_upsert(m, key, v)),
        kv_has(kv_upsert(m, key, v), key),
        kv_value(kv_upsert(m, key, v), key) == v,
        k != key ==> kv_has(kv_upsert(m, key, v), k) == kv_has(m, k),
        k != key && kv_has(m, k) ==> kv_value(kv_upsert(m, key, v), k) == kv_value(m, k),
{
    let m2 = kv_upsert(m, key, v);
    if kv_has(m, key) {
        let i = kv_index(m, key);
        assert(0 <= i < m.len() && m[i].0 == key);
        assert(forall|p: int| 0 <= p < m2.len() && p != i ==> m2[p] == m[p]);
        assert(kv_keys_unique(m2));
        lemma_kv_index_of(m2, i);
        if k != key && kv_has(m, k) {
            let p = kv_index(m, k);
            assert(0 <= p < m.len() && m[p].0 == k);
            assert(p != i);
            lemma_kv_index_of(m2, p);
            assert(kv_has(m2, k));
        }
        if k != key && kv_has(m2, k) {
            let p = kv_index(m2, k);
            assert(0 <= p < m2.len() && m2[p].0 == k);
            assert(p != i);
            lemma_kv_index_of(m, p);
        }
    } else {
        assert(forall|p: int| 0 <= p < m.len() ==> m2[p] == m[p]);
        assert(kv_keys_unique(m2)) by {
            assert(forall|p: int| 0 <= p < m.len() ==> m[p].0 != key);
        }
        lemma_kv_index_of(m2, m.len() as int);
        if k != key && kv_has(m, k) {
            let p = kv_index(m, k);
            lemma_kv_index_of(m2, p);
        }
        if k != key && kv_has(m2, k) {
            let p = kv_index(m2, k);
            assert(p != m.len());
            lemma_kv_index_of(m, p);
        }
    }
}

/// The dispatch bookkeeping invariant: every task the task-to-worker index
/// assigns to a worker is listed in that worker's entry of the
/// worker-to-tasks index.
pub open spec fn maps_consistent(
    twm: Seq<(Seq<char>, Seq<char>)>,
    wtm: Seq<(Seq<char>, Seq<Seq<char>>)>,
) -> bool {
    forall|i: int| #![trigger twm[i]] 0 <= i < twm.len()
        ==> kv_has(wtm, twm[i].1) && kv_value(wtm, twm[i].1).contains(twm[i].0)
}

/// Every task id the task-to-worker index maps somewhere is a member of
/// the mapped worker's entry in the worker-to-tasks index.
pub proof fn lemma_assignment_listed(
    twm: Seq<(Seq<char>, Seq<char>)>,
    wtm: Seq<(Seq<char>, Seq<Seq<char>>)>,
    id: Seq<char>,
)
    requires
        kv_keys_unique(twm),
        maps_consistent(twm, wtm),
        kv_has(twm, id),
    ensures
        kv_has(wtm, kv_value(twm, id)),
        kv_value(wtm, kv_value(twm, id)).contains(id),
{
    let i = kv_index(twm, id);
    assert(0 <= i < twm.len() && twm[i].0 == id);
    assert(kv_has(wtm, twm[i].1) && kv_value(wtm, twm[i].1).contains(twm[i].0));
}

/// Recording one dispatch in both indices preserves their consistency.
pub proof fn lemma_dispatch_consistent(
    twm: Seq<(Seq<char>, Seq<char>)>,
    wtm: Seq<(Seq<char>, Seq<Seq<char>>)>,
    id: Seq<char>,
    w: Seq<char>,
)
    requires
        kv_keys_unique(twm),
        kv_keys_unique(wtm),
        maps_consistent(twm, wtm),
    ensures
        maps_consistent(kv_upsert(twm, id, w), wtm_append(wtm, w, id)),
{
    let twm2 = kv_upsert(twm, id, w);
    let wtm2 = wtm_append(wtm, w, id);
    let newlist = if kv_has(wtm, w) { kv_value(wtm, w).push(id) } else { seq![id] };
    lemma_kv_upsert_lookup(wtm, w, newlist, w);
    assert(newlist.contains(id)) by {
        assert(newlist[newlist.len() - 1] == id);
    }
    assert forall|i: int| 0 <= i < twm2.len() implies kv_has(wtm2, #[trigger] twm2[i].1)
        && kv_value(wtm2, twm2[i].1).contains(twm2[i].0) by {
        lemma_kv_upsert_lookup(twm, id, w, id);
        let is_new = if kv_has(twm, id) {
            i == kv_index(twm, id)
        } else {
            i == twm.len()
        };
        if is_new {
            assert(twm2[i] == (id, w));
            assert(kv_value(wtm2, w) == newlist);
        } else {
            assert(twm2[i] == twm[i]);
            let a = twm[i].0;
            let b = twm[i].1;
            assert(kv_has(wtm, b) && kv_value(wtm, b).contains(a));
            lemma_kv_upsert_lookup(wtm, w, newlist, b);
            if b == w {
                assert(kv_value(wtm2, w) == newlist);
                assert(newlist.contains(a)) by {
                    let p = choose|p: int| 0 <= p < kv_value(wtm, w).len()
                        && kv_value(wtm, w)[p] == a;
                    assert(newlist[p] == a);
                }
            } else {
                assert(kv_value(wtm2, b) == kv_value(wtm, b));
            }
        }
    }
}

/// Looks up the position of the entry stored under key `k`.
fn kv_find<V: DeepView>(m: &Vec<(String, V)>, k: &String) -> (r: Option<usize>)
    ensures
        (match r {
            Some(i) => i < m@.len() && m.deep_view()[i as int].0 == k@,
            None => !kv_has(m.deep_view(), k@),
        }),
{
    let mut i: usize = 0;
    while i < m.len()
        invariant
            i <= m@.len(),
            forall|j: int| 0 <= j < i ==> m.deep_view()[j].0 != k@,
        decreases m@.len() - i,
    {
        if m[i].0 == *k {
            assert(m.deep_view()[i as int].0 == k@);
            return Some(i);
        }
        i = i + 1;
    }
    None
}

/// Writes `v` under key `k`.
fn kv_set<V: DeepView>(m: &mut Vec<(String, V)>, k: String, v: V)
    requires
        kv_keys_unique(old(m).deep_view()),
    ensures
        final(m).deep_view() == kv_upsert(old(m).deep_view(), k@, v.deep_view()),
        kv_keys_unique(final(m).deep_view()),
{
    let ghost m0 = m.deep_view();
    proof {
        lemma_kv_upsert_lookup(m0, k@, v.deep_view(), k@);
    }
    match kv_find(m, &k) {
        Some(i) => {
            proof {
                lemma_kv_index_of(m0, i as int);
            }
            m.set(i, (k, v));
            proof {
                assert(m.deep_view() =~~= kv_upsert(m0, k@, v.deep_view()));
            }
        },
        None => {
            m.push((k, v));
            proof {
                assert(m.deep_view() =~~= kv_upsert(m0, k@, v.deep_view()));
            }
        },
    }
}

fn copy_strings(v: &Vec<String>) -> (r: Vec<String>)
    ensures
        r.deep_view() == v.deep_view(),
{
    let mut r: Vec<String> = Vec::new();
    let mut i: usize = 0;
    while i < v.len()
        invariant
            i <= v@.len(),
            r@.len() == i,
            r.deep_view() == v.deep_view().take(i as int),
        decreases v@.len() - i,
    {
        r.push(v[i].clone());
        proof {
            assert(r.deep_view() =~~= v.deep_view().take(i + 1));
        }
        i = i + 1;
    }
    proof {
        assert(v.deep_view().take(v@.len() as int) =~~= v.deep_view());
    }
    r
}

/// Appends `id` to worker `w`'s task list, creating the entry when absent.
fn wtm_push(m: &mut Vec<(String, Vec<String>)>, w: String, id: String)
    requires
        kv_keys_unique(old(m).deep_view()),
    ensures
        final(m).deep_view() == wtm_append(old(m).deep_view(), w@, id@),
        kv_keys_unique(final(m).deep_view()),
{
    let ghost m0 = m.deep_view();
    let ghost newlist = if kv_has(m0, w@) { kv_value(m0, w@).push(id@) } else { seq![id@] };
    proof {
        lemma_kv_upsert_lookup(m0, w@, newlist, w@);
    }
    match kv_find(m, &w) {
        Some(i) => {
            proof {
                lemma_kv_index_of(m0, i as int);
            }
            let mut ids = copy_strings(&m[i].1);
            ids.push(id);
            proof {
                assert(ids.deep_view() =~~= newlist);
            }
            m.set(i, (w, ids));
            proof {
                assert(m.deep_view() =~~= kv_upsert(m0, w@, newlist));
            }
        },
        None => {
            let mut ids: Vec<String> = Vec::new();
            ids.push(id);
            proof {
                assert(ids.deep_view() =~~= newlist);
            }
            m.push((w, ids));
            proof {
                assert(m.deep_view() =~~= kv_upsert(m0, w@, newlist));
            }
        },
    }
}

/// The observed record overlaid on the local one: the runtime-owned fields
/// (container id, both timestamps, state) come from the remote task, the
/// rest stays local.
pub open spec fn merged(local: TaskView, remote: TaskView) -> TaskView {
    TaskView {
        container_id: remote.container_id,
        start_time: remote.start_time,
        finish_time: remote.finish_time,
        state: remote.state,
        ..local
    }
}

/// One reconciliation step: a remote task is folded into the snapshot map
/// only when its id names a known dispatch (an entry of the event log) with
/// a local snapshot whose state differs from the observed one.
pub open spec fn fold_step(
    event_db: Seq<(Seq<char>, TaskEventView)>,
    task_db: Seq<(Seq<char>, TaskView)>,
    t: TaskView,
) -> Seq<(Seq<char>, TaskView)> {
    if kv_has(event_db, t.id) && kv_has(task_db, t.id) && kv_value(task_db, t.id).state
        != t.state {
        kv_upsert(task_db, t.id, merged(kv_value(task_db, t.id), t))
    } else {
        task_db
    }
}

/// The snapshot map after folding in a whole batch of observed tasks, first
/// to last.
pub open spec fn fold_observed(
    event_db: Seq<(Seq<char>, TaskEventView)>,
    task_db: Seq<(Seq<char>, TaskView)>,
    remote: Seq<TaskView>,
) -> Seq<(Seq<char>, TaskView)>
    decreases remote.len(),
{
    if remote.len() == 0 {
        task_db
    } else {
        fold_observed(event_db, fold_step(event_db, task_db, remote[0]), remote.drop_first())
    }
}

/// Builds the overlaid record of [`merged`].
fn merge_records(local: &Task, remote: &Task) -> (r: Task)
    ensures
        r@ == merged(local@, remote@),
{
    let r = Task {
        id: local.id.clone(),
        container_id: crate::task::copy_opt_string(&remote.container_id),
        name: local.name.clone(),
        state: remote.state,
        image: local.image.clone(),
        memory: local.memory,
        disk: local.disk,
        exposed_ports: crate::task::copy_ports(&local.exposed_ports),
        port_bindings: crate::task::copy_string_pairs(&local.port_bindings),
        restart_policy: local.restart_policy.clone(),
        start_time: remote.start_time,
        finish_time: remote.finish_time,
    };
    proof {
        assert(r@ =~= merged(local@, remote@));
    }
    r
}

/// The central dispatcher.  Its four indices are association lists with
/// unique keys: `task_db` is the latest observed snapshot per task id,
/// `event_db` the dispatch log, `worker_task_map` the tasks sent to each
/// worker, `task_worker_map` the worker each task went to.
#[derive(Debug)]
pub struct Manager {
    pub pending: VecDeque<TaskEvent>,
    pub task_db: Vec<(String, Task)>,
    pub event_db: Vec<(String, TaskEvent)>,
    pub workers: Vec<String>,
    pub worker_task_map: Vec<(String, Vec<String>)>,
    pub task_worker_map: Vec<(String, String)>,
    pub last_worker: u16,
}

/// The mathematical value of a [`Manager`].
#[verifier::ext_equal]
pub ghost struct ManagerView {
    pub pending: Seq<TaskEventView>,
    pub task_db: Seq<(Seq<char>, TaskView)>,
    pub event_db: Seq<(Seq<char>, TaskEventView)>,
    pub workers: Seq<Seq<char>>,
    pub worker_task_map: Seq<(Seq<char>, Seq<Seq<char>>)>,
    pub task_worker_map: Seq<(Seq<char>, Seq<char>)>,
    pub last_worker: u16,
}

impl View for Manager {
    type V = ManagerView;

    open spec fn view(&self) -> ManagerView {
        ManagerView {
            pending: self.pending.deep_view(),
            task_db: self.task_db.deep_view(),
            event_db: self.event_db.deep_view(),
            workers: self.workers.deep_view(),
            worker_task_map: self.worker_task_map.deep_view(),
            task_worker_map: self.task_worker_map.deep_view(),
            last_worker: self.last_worker,
        }
    }
}

/// The round-robin cursor after one selection: advance by one, wrap to zero
/// past the end.
pub open spec fn rr_next(c: int, n: int) -> int {
    if c + 1 < n {
        c + 1
    } else {
        0
    }
}

/// The cursor after `k` further selections starting from `c0`.
pub open spec fn rr_cursor(c0: int, n: int, k: nat) -> int
    decreases k,
{
    if k == 0 {
        c0
    } else {
        rr_next(rr_cursor(c0, n, (k - 1) as nat), n)
    }
}

/// How many of the first `k` selections starting from cursor `c0` land on
/// index `i`.
pub open spec fn rr_visits(c0: int, n: int, k: nat, i: int) -> nat
    decreases k,
{
    if k == 0 {
        0nat
    } else {
        rr_visits(c0, n, (k - 1) as nat, i) + (if rr_cursor(c0, n, k) == i {
            1nat
        } else {
            0nat
        })
    }
}

/// Advancing the cursor `k` times is addition of `k` modulo the pool size.
pub proof fn lemma_rr_cursor_mod(c0: int, n: int, k: nat)
    requires
        0 < n,
        0 <= c0 < n,
    ensures
        rr_cursor(c0, n, k) == (c0 + k) % n,
        0 <= rr_cursor(c0, n, k) < n,
    decreases k,
{
    if k == 0 {
        lemma_small_mod(c0 as nat, n as nat);
    } else {
        lemma_rr_cursor_mod(c0, n, (k - 1) as nat);
        let x = c0 + k - 1;
        lemma_fundamental_div_mod(x, n);
        lemma_mod_bound(x, n);
        let q = x / n;
        let r = x % n;
        if r + 1 < n {
            assert(c0 + k == n * q + (r + 1));
            lemma_mod_multiples_vanish(q, r + 1, n);
            lemma_small_mod((r + 1) as nat, n as nat);
        } else {
            assert(r + 1 == n);
            assert(c0 + k == n * (q + 1) + 0) by {
                assert(n * (q + 1) == n * q + n) by (nonlinear_arith);
            }
            lemma_mod_multiples_vanish(q + 1, 0, n);
            lemma_small_mod(0, n as nat);
        }
    }
}

/// `x % n == y` exactly when `n` divides `x - y`, for `y` within `[0, n)`.
proof fn lemma_mod_eq_iff(x: int, y: int, n: int)
    requires
        0 < n,
        0 <= y < n,
    ensures
        (x % n == y) <==> ((x - y) % n == 0),
{
    lemma_fundamental_div_mod(x, n);
    lemma_mod_bound(x, n);
    let q = x / n;
    let r = x % n;
    if r >= y {
        assert(x - y == q * n + (r - y)) by {
            assert(n * q == q * n) by (nonlinear_arith);
        }
        lemma_fundamental_div_mod_converse(x - y, n, q, r - y);
    } else {
        assert(x - y == (q - 1) * n + (r - y + n)) by {
            assert((q - 1) * n == n * q - n) by (nonlinear_arith);
        }
        lemma_fundamental_div_mod_converse(x - y, n, q - 1, r - y + n);
    }
}

/// The exact visit count of index `i` over the first `k` selections.
proof fn lemma_rr_visits_exact(c0: int, n: int, k: nat, i: int)
    requires
        0 < n,
        0 <= c0 < n,
        0 <= i < n,
    ensures
        rr_visits(c0, n, k, i) == (k + n - 1 - ((i - c0 - 1) % n)) / n,
    decreases k,
{
    let d = (i - c0 - 1) % n;
    lemma_mod_bound(i - c0 - 1, n);
    if k == 0 {
        lemma_fundamental_div_mod_converse(n - 1 - d, n, 0, n - 1 - d);
    } else {
        lemma_rr_visits_exact(c0, n, (k - 1) as nat, i);
        lemma_rr_cursor_mod(c0, n, k);
        let m = k + n - 1 - d;

        // The cursor lands on i exactly when n divides m.
        lemma_mod_eq_iff(c0 + k, i, n);
        lemma_fundamental_div_mod(i - c0 - 1, n);
        let qe = (i - c0 - 1) / n;
        assert(c0 + k - i == n * (-qe) + (k - 1 - d)) by {
            assert(n * (-qe) == -(n * qe)) by (nonlinear_arith);
        }
        lemma_mod_multiples_vanish(-qe, k - 1 - d, n);
        lemma_mod_add_multiples_vanish(k - 1 - d, n);
        assert((c0 + k) % n == i <==> m % n == 0);

        // The count formula rises by one exactly when n divides m.
        lemma_fundamental_div_mod(m, n);
        lemma_mod_bound(m, n);
        let qm = m / n;
        let rm = m % n;
        if rm == 0 {
            assert(m - 1 == (qm - 1) * n + (n - 1)) by {
                assert((qm - 1) * n == n * qm - n) by (nonlinear_arith);
            }
            lemma_fundamental_div_mod_converse(m - 1, n, qm - 1, n - 1);
        } else {
            assert(m - 1 == qm * n + (rm - 1)) by {
                assert(qm * n == n * qm) by (nonlinear_arith);
            }
            lemma_fundamental_div_mod_converse(m - 1, n, qm, rm - 1);
        }
    }
}

/// Round-robin selection is fair: over any `k` successive successful
/// selections against a fixed pool of `n` workers, every index is returned
/// either ⌊k/n⌋ or ⌈k/n⌉ times — exactly k/n times whenever n divides k.
pub proof fn lemma_round_robin_fair(c0: int, n: int, k: nat, i: int)
    requires
        0 < n,
        0 <= c0 < n,
        0 <= i < n,
    ensures
        rr_visits(c0, n, k, i) == k as int / n || rr_visits(c0, n, k, i) == k as int / n + 1,
        k as int % n == 0 ==> rr_visits(c0, n, k, i) == k as int / n,
{
    lemma_rr_visits_exact(c0, n, k, i);
    let d = (i - c0 - 1) % n;
    lemma_mod_bound(i - c0 - 1, n);
    let m = k + n - 1 - d;
    lemma_fundamental_div_mod(k as int, n);
    lemma_mod_bound(k as int, n);
    let a = k as int / n;
    let b = k as int % n;
    if b + n - 1 - d < n {
        assert(m == a * n + (b + n - 1 - d)) by {
            assert(a * n == n * a) by (nonlinear_arith);
        }
        lemma_fundamental_div_mod_converse(m, n, a, b + n - 1 - d);
    } else {
        assert(m == (a + 1) * n + (b - 1 - d)) by {
            assert((a + 1) * n == n * a + n) by (nonlinear_arith);
        }
        lemma_fundamental_div_mod_converse(m, n, a + 1, b - 1 - d);
    }
}

impl Manager {
    /// The manager's invariant: the cursor fits the worker pool (which is
    /// bounded by its u16 cursor), all four indices have unique keys, and
    /// the two dispatch indices agree (every assigned task is listed under
    /// its worker).
    pub open spec fn wf(self) -> bool {
        &&& self@.workers.len() <= 0xFFFF
        &&& (self@.workers.len() > 0 ==> (self.last_worker as int) < self@.workers.len())
        &&& kv_keys_unique(self@.task_db)
        &&& kv_keys_unique(self@.event_db)
        &&& kv_keys_unique(self@.worker_task_map)
        &&& kv_keys_unique(self@.task_worker_map)
        &&& maps_consistent(self@.task_worker_map, self@.worker_task_map)
    }

    /// A fresh manager over the given worker pool: empty queues and indices,
    /// cursor at zero.  The pool must fit the u16 cursor.
    pub fn new(workers: Vec<String>) -> (m: Manager)
        requires
            workers@.len() <= 0xFFFF,
        ensures
            m.wf(),
            m@.workers == workers.deep_view(),
            m@.pending.len() == 0,
            m@.task_db.len() == 0,
            m@.event_db.len() == 0,
            m@.worker_task_map.len() == 0,
            m@.task_worker_map.len() == 0,
            m@.last_worker == 0,
    {
        let m = Manager {
            pending: VecDeque::new(),
            task_db: Vec::new(),
            event_db: Vec::new(),
            workers,
            worker_task_map: Vec::new(),
            task_worker_map: Vec::new(),
            last_worker: 0,
        };
        proof {
            assert(m@.pending =~= Seq::<TaskEventView>::empty());
            assert(m@.task_db =~= Seq::<(Seq<char>, TaskView)>::empty());
            assert(m@.event_db =~= Seq::<(Seq<char>, TaskEventView)>::empty());
            assert(m@.worker_task_map =~= Seq::<(Seq<char>, Seq<Seq<char>>)>::empty());
            assert(m@.task_worker_map =~= Seq::<(Seq<char>, Seq<char>)>::empty());
        }
        m
    }

    /// Round-robin selection: with no workers configured the request fails;
    /// otherwise the cursor advances one step (wrapping to zero) and the
    /// worker now under it is returned.  The cursor moves whether or not the
    /// caller's subsequent send succeeds.
    pub fn select_worker(&mut self) -> (r: ManagerResult<String>)
        requires
            old(self).wf(),
        ensures
            final(self).wf(),
            old(self)@.workers.len() == 0 ==> final(self)@ == old(self)@
                && r == Err::<String, ManagerError>(ManagerError::NoWorkersAvailable),
            old(self)@.workers.len() > 0 ==> {
                let c = rr_next(old(self).last_worker as int, old(self)@.workers.len() as int);
                &&& final(self)@ == (ManagerView { last_worker: c as u16, ..old(self)@ })
                &&& r matches Ok(w) && w@ == old(self)@.workers[c]
            },
    {
        if self.workers.is_empty() {
            return Err(ManagerError::NoWorkersAvailable);
        }

        let new_worker: u16 = if self.last_worker + 1 < (self.workers.len() as u16) {
            self.last_worker + 1
        } else {
            0
        };

        self.last_worker = new_worker;
        Ok(self.workers[new_worker as usize].clone())
    }

    /// Appends `task_event` to the pending queue; nothing else changes.
    pub fn add_task(&mut self, task_event: TaskEvent)
        ensures
            final(self)@ == (ManagerView {
                pending: old(self)@.pending.push(task_event@),
                ..old(self)@
            }),
    {
        let ghost q0 = self.pending.deep_view();
        let ghost e = task_event@;
        self.pending.push_back(task_event);
        proof {
            assert(self.pending.deep_view() =~~= q0.push(e));
        }
    }

    /// A snapshot copy of the observed task records, in storage order.
    pub fn get_all_tasks(&self) -> (r: Vec<Task>)
        ensures
            r.deep_view() == self@.task_db.map_values(|p: (Seq<char>, TaskView)| p.1),
    {
        let ghost vals = self@.task_db.map_values(|p: (Seq<char>, TaskView)| p.1);
        let mut r: Vec<Task> = Vec::new();
        let mut i: usize = 0;
        while i < self.task_db.len()
            invariant
                i <= self.task_db@.len(),
                r@.len() == i,
                vals == self@.task_db.map_values(|p: (Seq<char>, TaskView)| p.1),
                r.deep_view() == vals.take(i as int),
            decreases self.task_db@.len() - i,
        {
            r.push(self.task_db[i].1.duplicate());
            proof {
                assert(r.deep_view() =~~= vals.take(i + 1));
            }
            i = i + 1;
        }
        proof {
            assert(vals.take(vals.len() as int) =~~= vals);
        }
        r
    }

    /// One dispatch step.  With nothing pending this is a silent no-op.
    /// Otherwise a worker is selected round-robin (failing when the pool is
    /// empty, with nothing changed), the most recently added event is taken
    /// from the tail of the pending queue, and all four indices are updated
    /// together: the event is logged, its task id joins the worker's list,
    /// the task is assigned to the worker, and the event's task becomes the
    /// task's latest snapshot.  The selected worker and the event, which the
    /// caller still has to deliver, are handed back.
    pub fn send_work(&mut self) -> (r: ManagerResult<Option<(String, TaskEvent)>>)
        requires
            old(self).wf(),
        ensures
            final(self).wf(),
            old(self)@.pending.len() == 0 ==> final(self)@ == old(self)@
                && r == Ok::<Option<(String, TaskEvent)>, ManagerError>(None),
            old(self)@.pending.len() > 0 && old(self)@.workers.len() == 0
                ==> final(self)@ == old(self)@
                && r == Err::<Option<(String, TaskEvent)>, ManagerError>(
                    ManagerError::NoWorkersAvailable,
                ),
            old(self)@.pending.len() > 0 && old(self)@.workers.len() > 0 ==> {
                let c = rr_next(old(self).last_worker as int, old(self)@.workers.len() as int);
                let w = old(self)@.workers[c];
                let e = old(self)@.pending.last();
                &&& final(self)@ == (ManagerView {
                    pending: old(self)@.pending.drop_last(),
                    event_db: kv_upsert(old(self)@.event_db, e.task_id, e),
                    worker_task_map: wtm_append(old(self)@.worker_task_map, w, e.task_id),
                    task_worker_map: kv_upsert(old(self)@.task_worker_map, e.task_id, w),
                    task_db: kv_upsert(old(self)@.task_db, e.task_id, e.task),
                    last_worker: c as u16,
                    ..old(self)@
                })
                &&& (r matches Ok(o) && o matches Some(p) && p.0@ == w && p.1@ == e)
            },
    {
        if self.pending.len() == 0 {
            return Ok(None);
        }

        let ghost m0 = self@;
        let worker = match self.select_worker() {
            Ok(w) => w,
            Err(e) => {
                return Err(e);
            },
        };

        match self.pending.pop_back() {
            Some(task_event) => {
                proof {
                    assert(self.pending.deep_view() =~~= m0.pending.drop_last());
                }
                kv_set(&mut self.event_db, task_event.task_id.clone(), task_event.duplicate());
                wtm_push(&mut self.worker_task_map, worker.clone(), task_event.task_id.clone());
                kv_set(&mut self.task_worker_map, task_event.task_id.clone(), worker.clone());
                kv_set(&mut self.task_db, task_event.task_id.clone(), task_event.task.duplicate());
                proof {
                    lemma_dispatch_consistent(
                        m0.task_worker_map,
                        m0.worker_task_map,
                        m0.pending.last().task_id,
                        m0.workers[rr_next(m0.last_worker as int, m0.workers.len() as int)],
                    );
                }
                Ok(Some((worker, task_event)))
            },
            None => {
                proof {
                    assert(false);
                }
                Err(ManagerError::NoWorkersAvailable)
            },
        }
    }
    /// Folds one worker's reported tasks back into the local snapshots, in
    /// report order.  Only tasks known to the event log and the snapshot map
    /// are touched, and a snapshot is replaced — by the remote record
    /// overlaid on it — only when the observed state differs.  Tasks absent
    /// from the report are never deleted.
    pub fn update_task(&mut self, observed: &Vec<Task>)
        requires
            old(self).wf(),
        ensures
            final(self).wf(),
            final(self)@ == (ManagerView {
                task_db: fold_observed(
                    old(self)@.event_db,
                    old(self)@.task_db,
                    observed.deep_view(),
                ),
                ..old(self)@
            }),
    {
        let ghost e0 = self@.event_db;
        let ghost db0 = self@.task_db;
        let ghost obs = observed.deep_view();
        proof {
            assert(obs.skip(0) =~= obs);
        }
        let mut i: usize = 0;
        while i < observed.len()
            invariant
                i <= obs.len(),
                obs == observed.deep_view(),
                e0 == self@.event_db,
                kv_keys_unique(self@.task_db),
                fold_observed(e0, self@.task_db, obs.skip(i as int)) == fold_observed(
                    e0,
                    db0,
                    obs,
                ),
                self@ == (ManagerView { task_db: self@.task_db, ..old(self)@ }),
            decreases obs.len() - i,
        {
            let ghost cur = self@.task_db;
            proof {
                assert(obs.skip(i as int)[0] == obs[i as int]);
                assert(obs.skip(i as int).drop_first() =~= obs.skip(i as int + 1));
            }
            let t = &observed[i];
            match kv_find(&self.event_db, &t.id) {
                Some(ei) => {
                    proof {
                        assert(kv_has(e0, t@.id)) by {
                            assert(e0[ei as int].0 == t@.id);
                        }
                    }
                    match kv_find(&self.task_db, &t.id) {
                        Some(j) => {
                            proof {
                                lemma_kv_index_of(cur, j as int);
                            }
                            if self.task_db[j].1.state != t.state {
                                let key = self.task_db[j].0.clone();
                                let rec = merge_records(&self.task_db[j].1, t);
                                self.task_db.set(j, (key, rec));
                                proof {
                                    lemma_kv_upsert_lookup(
                                        cur,
                                        t@.id,
                                        merged(kv_value(cur, t@.id), t@),
                                        t@.id,
                                    );
                                    assert(self@.task_db =~~= kv_upsert(
                                        cur,
                                        t@.id,
                                        merged(kv_value(cur, t@.id), t@),
                                    ));
                                }
                            }
                        },
                        None => {
                        },
                    }
                },
                None => {
                },
            }
            proof {
                assert(self@.task_db == fold_step(e0, cur, obs[i as int]));
            }
            i = i + 1;
        }
        proof {
            assert(obs.skip(obs.len() as int) =~= Seq::<TaskView>::empty());
            assert(final(self)@ =~= (ManagerView {
                task_db: fold_observed(e0, db0, obs),
                ..old(self)@
            }));
        }
    }
}

} // verus!
