use vstd::prelude::*;

verus! {

/// Lines of dialogue: speaker names with their lines, in the order written,
/// and a pace that overrides the speakers' own.
pub struct TextInput {
    pub dialogs: Vec<(String, String)>,
    pub duration: Option<u64>,
}

/// A banner shown for some seconds.
pub struct TitleInput {
    pub text: String,
    pub wait: u64,
}

impl TitleInput {
    pub open spec fn spec_default_duration() -> u64 {
        1
    }

    /// The seconds a banner stays unless the document says otherwise.
    pub fn default_duration() -> (r: u64)
        ensures
            r == Self::spec_default_duration(),
    {
        1
    }

    /// A copy with the same text and wait.
    pub fn duplicate(&self) -> (r: TitleInput)
        ensures
            r == *self,
    {
        TitleInput { text: self.text.clone(), wait: self.wait }
    }
}

} // verus!
