use vstd::prelude::*;

use crate::condition::{all_guards, all_hold, Condition};
use crate::runtime::RuntimeState;
use crate::section::Section;

verus! {

/// An ordered list of guarded cases with an optional default.
pub struct Switcher<C> {
    pub default: Option<Box<Section>>,
    pub cases: Vec<Case<C>>,
}

/// A body that runs when all of its guards hold.
pub struct Case<C> {
    pub section: Section,
    pub captures: Vec<C>,
}

/// The index of the first true outcome, if any.
pub open spec fn first_true(outcomes: Seq<bool>) -> Option<int>
    decreases outcomes.len(),
{
    if outcomes.len() == 0 {
        None
    } else {
        match first_true(outcomes.drop_last()) {
            Some(i) => Some(i),
            None => if outcomes.last() {
                Some(outcomes.len() - 1)
            } else {
                None
            },
        }
    }
}

/// The body a switcher runs, given whether each case's guards hold: the
/// first case that holds, else the default (numbered after the cases), else none.
pub open spec fn chosen(outcomes: Seq<bool>, has_default: bool) -> Option<int> {
    match first_true(outcomes) {
        Some(i) => Some(i),
        None => if has_default {
            Some(outcomes.len() as int)
        } else {
            None
        },
    }
}

/// The first true outcome is the one before which every outcome is false.
pub proof fn lemma_first_true(outcomes: Seq<bool>)
    ensures
        match first_true(outcomes) {
            Some(i) => 0 <= i < outcomes.len() && outcomes[i] && forall|j: int| 0 <= j < i ==> !outcomes[j],
            None => forall|j: int| 0 <= j < outcomes.len() ==> !outcomes[j],
        },
    decreases outcomes.len(),
{
    if outcomes.len() > 0 {
        let prefix = outcomes.drop_last();
        lemma_first_true(prefix);
        assert forall|j: int| 0 <= j < prefix.len() implies prefix[j] == outcomes[j] by {}
    }
}

/// A switcher runs at most one body: the first case, in declaration order,
/// whose guards all hold; where none holds, the default, if there is one;
/// else nothing.
pub proof fn lemma_switch_runs_first_match(outcomes: Seq<bool>, has_default: bool)
    ensures
        match chosen(outcomes, has_default) {
            Some(i) => (0 <= i < outcomes.len() && outcomes[i] && forall|j: int| 0 <= j < i ==> !outcomes[j])
                || (i == outcomes.len() && has_default && forall|j: int| 0 <= j < outcomes.len() ==> !outcomes[j]),
            None => !has_default && forall|j: int| 0 <= j < outcomes.len() ==> !outcomes[j],
        },
{
    lemma_first_true(outcomes);
}

impl<C: Condition> Switcher<C> {
    pub open spec fn has_default(&self) -> bool {
        self.default is Some
    }

    /// Whether the guards of each case all hold in `state`.
    pub open spec fn outcomes(&self, state: RuntimeState) -> Seq<bool> {
        Seq::new(self.cases@.len(), |i: int| all_guards(self.cases@[i].captures@, state))
    }

    pub open spec fn spec_child(&self, i: int) -> Option<Section> {
        if 0 <= i < self.cases@.len() {
            Some(self.cases@[i].section)
        } else if i == self.cases@.len() && self.default is Some {
            Some(*self.default->Some_0)
        } else {
            None
        }
    }

    /// The body to run in `state`, numbered as `spec_child` numbers them:
    /// cases are tried in order and the first whose guards all hold wins;
    /// the cases after it are not evaluated.
    pub fn select(&self, state: &RuntimeState) -> (r: Option<usize>)
        ensures
            r == match chosen(self.outcomes(*state), self.has_default()) {
                Some(i) => Some(i as usize),
                None => None::<usize>,
            },
            r matches Some(i) ==> self.spec_child(i as int) is Some,
    {
        let ghost o = self.outcomes(*state);
        proof { lemma_first_true(o); }
        let mut k: usize = 0;
        while k < self.cases.len()
            invariant
                k <= self.cases@.len(),
                o == self.outcomes(*state),
                o.len() == self.cases@.len(),
                forall|j: int| 0 <= j < k ==> !o[j],
                match first_true(o) {
                    Some(i) => 0 <= i < o.len() && o[i] && forall|j: int| 0 <= j < i ==> !o[j],
                    None => forall|j: int| 0 <= j < o.len() ==> !o[j],
                },
            decreases self.cases.len() - k,
        {
            let holds = all_hold(&self.cases[k].captures, state);
            assert(holds == o[k as int]);
            if holds {
                assert(first_true(o) == Some(k as int)) by {
                    if let Some(i) = first_true(o) {
                        if i < k {
                        } else if i > k {
                        }
                    }
                }
                return Some(k);
            }
            k = k + 1;
        }
        assert(first_true(o) is None) by {
            if let Some(i) = first_true(o) {
                assert(!o[i]);
            }
        }
        if self.default.is_some() {
            Some(self.cases.len())
        } else {
            None
        }
    }
}

} // verus!
