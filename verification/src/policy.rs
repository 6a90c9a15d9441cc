//! The process-level intercept policy: a list of process ids to intercept, or a list to exempt, replaced whole on every update, never mutated in place.

use vstd::prelude::*;

verus! {

/// The active policy value.
#[derive(Debug)]
pub enum Policy {
    /// Intercept a connection iff its process id is in the list.
    InterceptInclude(Vec<u32>),
    /// Intercept a connection iff its process id is not in the list.
    InterceptExclude(Vec<u32>),
}

/// Specification view of a policy: whether the list names the intercepted
/// processes (true) or the exempted ones (false), and the listed ids.
pub struct PolicyView {
    pub listed_are_intercepted: bool,
    pub pids: Seq<u32>,
}

impl PolicyView {
    /// Whether this policy intercepts the given process id.
    pub open spec fn intercepts(self, pid: u32) -> bool {
        if self.listed_are_intercepted {
            self.pids.contains(pid)
        } else {
            !self.pids.contains(pid)
        }
    }
}

impl View for Policy {
    type V = PolicyView;

    open spec fn view(&self) -> PolicyView {
        match self {
            Policy::InterceptInclude(v) => PolicyView { listed_are_intercepted: true, pids: v@ },
            Policy::InterceptExclude(v) => PolicyView { listed_are_intercepted: false, pids: v@ },
        }
    }
}

/// Whether a list of process ids contains the given one.
fn pids_contain(v: &Vec<u32>, pid: u32) -> (r: bool)
    ensures
        r == v@.contains(pid),
{
    let mut i: usize = 0;
    while i < v.len()
        invariant
            i <= v@.len(),
            forall|j: int| 0 <= j < i ==> v@[j] != pid,
        decreases v@.len() - i,
    {
        if v[i] == pid {
            return true;
        }
        i += 1;
    }
    false
}

impl Policy {
    /// The startup policy: an empty intercept list, which intercepts nothing.
    pub fn default_policy() -> (r: Policy)
        ensures
            r@.listed_are_intercepted == true,
            r@.pids == Seq::<u32>::empty(),
    {
        Policy::InterceptInclude(Vec::new())
    }

    /// Decide intercept vs. pass for a process id, purely from the policy value.
    pub fn should_intercept(&self, pid: u32) -> (r: bool)
        ensures
            r == self@.intercepts(pid),
    {
        match self {
            Policy::InterceptInclude(v) => pids_contain(v, pid),
            Policy::InterceptExclude(v) => !pids_contain(v, pid),
        }
    }
}

} // verus!
