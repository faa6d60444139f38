use vstd::prelude::*;

verus! {

/// A record of a schedulable node, kept for resource-aware placement
/// strategies.
#[derive(Debug, Clone)]
pub struct Node {
    pub name: String,
    pub ip: String,
    pub cores: u64,
    pub memory: u64,
    pub memory_allocated: u64,
    pub disk: u64,
    pub disk_allocated: u64,
    pub role: String,
    pub task_count: u64,
}

/// The pluggable placement seam: gather candidate nodes, score them, pick
/// one.  The manager's round-robin selection is the reference
/// specialization; resource-aware strategies would implement this instead.
#[allow(non_camel_case_types)]
pub trait scheduler {
    fn select_candidate_node(&self);

    fn score(&self) -> u64;

    fn pick(&self);
}

} // verus!
