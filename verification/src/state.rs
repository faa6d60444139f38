use vstd::prelude::*;

verus! {

/// Lifecycle states of a task.
#[derive(Clone, Copy, Debug, PartialEq, Eq, Hash, Structural)]
pub enum State {
    Pending,
    Scheduled,
    Running,
    Completed,
    Failed,
}

/// The transition table of the task lifecycle: `Pending` may only be
/// scheduled; `Scheduled` and `Running` may loop on themselves, advance, or
/// fail; `Completed` and `Failed` are terminal.
pub open spec fn transition_allowed(src: State, dst: State) -> bool {
    match src {
        State::Pending => dst == State::Scheduled,
        State::Scheduled => dst == State::Scheduled || dst == State::Running
            || dst == State::Failed,
        State::Running => dst == State::Running || dst == State::Completed
            || dst == State::Failed,
        State::Completed => false,
        State::Failed => false,
    }
}

/// Decides whether a task may move from `src` to `dst`.  The worker consults
/// this before every runtime side effect on a task.
pub fn valid_state_transition(src: &State, dst: &State) -> (r: bool)
    ensures
        r == transition_allowed(*src, *dst),
{
    match (src, dst) {
        (State::Pending, State::Scheduled) => true,
        (State::Scheduled, State::Scheduled) => true,
        (State::Scheduled, State::Running) => true,
        (State::Scheduled, State::Failed) => true,
        (State::Running, State::Running) => true,
        (State::Running, State::Completed) => true,
        (State::Running, State::Failed) => true,
        _ => false,
    }
}

/// The terminal states are sinks: no transition leaves `Completed` or
/// `Failed`, not even the identity transition back onto themselves.
pub proof fn lemma_terminal_states_sink(dst: State)
    ensures
        !transition_allowed(State::Completed, dst),
        !transition_allowed(State::Failed, dst),
{
}

/// From `Pending` the one permitted move is to `Scheduled`.
pub proof fn lemma_pending_only_schedules(dst: State)
    ensures
        transition_allowed(State::Pending, dst) <==> dst == State::Scheduled,
{
}

} // verus!
