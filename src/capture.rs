use vstd::prelude::*;

use crate::text::{contains_text, is_substring};

verus! {

/// A guard on the last line of input.
pub enum Capture {
    /// Holds when the input contains any of these literal texts.
    Literals(Vec<String>),
}

/// Some literal of `lits` is a substring of `input`.
pub open spec fn any_literal_in(lits: Seq<String>, input: Seq<char>) -> bool {
    exists|k: int| 0 <= k < lits.len() && #[trigger] is_substring(lits[k]@, input)
}

/// A capture with no literals matches no input.
pub proof fn lemma_no_literals_never_capture(c: Capture, input: Seq<char>)
    requires
        c->Literals_0@.len() == 0,
    ensures
        !c.spec_captures(input),
{
}

impl Capture {
    pub open spec fn spec_captures(&self, input: Seq<char>) -> bool {
        any_literal_in(self->Literals_0@, input)
    }

    /// Whether `input` contains one of the literals (case-sensitive); false for an empty list.
    pub fn captures(&self, input: &str) -> (r: bool)
        ensures
            r == self.spec_captures(input@),
    {
        match self {
            Capture::Literals(literals) => {
                let mut k: usize = 0;
                while k < literals.len()
                    invariant
                        k <= literals@.len(),
                        self.spec_captures(input@) == any_literal_in(literals@, input@),
                        forall|j: int| 0 <= j < k ==> !is_substring(literals@[j]@, input@),
                    decreases literals.len() - k,
                {
                    if contains_text(input, literals[k].as_str()) {
                        assert(is_substring(literals@[k as int]@, input@));
                        assert(any_literal_in(literals@, input@));
                        return true;
                    }
                    k = k + 1;
                }
                false
            },
        }
    }
}

} // verus!
