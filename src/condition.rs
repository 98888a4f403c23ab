use vstd::prelude::*;

use crate::capture::Capture;
use crate::runtime::{condition_holds, RuntimeState};

verus! {

/// A guard evaluated against the runtime state.
pub trait Condition: Sized {
    /// Whether the guard holds in `state`.
    spec fn holds(&self, state: RuntimeState) -> bool;

    fn value(&self, state: &RuntimeState) -> (r: bool)
        ensures
            r == self.holds(*state);
}

impl Condition for Capture {
    open spec fn holds(&self, state: RuntimeState) -> bool {
        self.spec_captures(state.last_in@)
    }

    fn value(&self, state: &RuntimeState) -> (r: bool) {
        self.captures(state.last_in.as_str())
    }
}

/// A guard of a `switch` or a branch.
pub enum Conditional {
    /// An expression that must evaluate to true; one that fails to evaluate,
    /// or gives anything but a boolean, does not hold.
    Expression(String),
    /// Captures that must all match the last input line.
    LastIn(Vec<Capture>),
}

/// Every capture of `caps` matches `last_in`.
pub open spec fn all_capture(caps: Seq<Capture>, last_in: Seq<char>) -> bool {
    forall|k: int| 0 <= k < caps.len() ==> #[trigger] caps[k].spec_captures(last_in)
}

impl Condition for Conditional {
    open spec fn holds(&self, state: RuntimeState) -> bool {
        match self {
            Conditional::Expression(e) => condition_holds(e@, state.context),
            Conditional::LastIn(caps) => all_capture(caps@, state.last_in@),
        }
    }

    fn value(&self, state: &RuntimeState) -> (r: bool) {
        match self {
            Conditional::Expression(expr) => state.var_condition(expr.as_str()),
            Conditional::LastIn(captures) => {
                let mut k: usize = 0;
                while k < captures.len()
                    invariant
                        k <= captures@.len(),
                        self.holds(*state) == all_capture(captures@, state.last_in@),
                        forall|j: int| 0 <= j < k ==> #[trigger] captures@[j].spec_captures(state.last_in@),
                    decreases captures.len() - k,
                {
                    if !captures[k].captures(state.last_in.as_str()) {
                        return false;
                    }
                    k = k + 1;
                }
                true
            },
        }
    }
}

/// Every guard holds in `state` (true of no guards).
pub open spec fn all_guards<C: Condition>(guards: Seq<C>, state: RuntimeState) -> bool {
    forall|k: int| 0 <= k < guards.len() ==> (#[trigger] guards[k]).holds(state)
}

/// Whether all guards hold, each evaluated in order until one fails.
pub fn all_hold<C: Condition>(guards: &Vec<C>, state: &RuntimeState) -> (r: bool)
    ensures
        r == all_guards(guards@, *state),
{
    let mut k: usize = 0;
    while k < guards.len()
        invariant
            k <= guards@.len(),
            forall|j: int| 0 <= j < k ==> (#[trigger] guards@[j]).holds(*state),
        decreases guards.len() - k,
    {
        if !guards[k].value(state) {
            return false;
        }
        k = k + 1;
    }
    true
}

} // verus!
