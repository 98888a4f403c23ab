use vstd::prelude::*;

use crate::character_style::{CharacterStyle, Effect};

verus! {

/// A speaker of dialogue lines.
pub struct Character {
    pub name: String,
    pub style: CharacterStyle,
    /// How many characters of a line are shown per second.
    pub duration: u64,
}

/// Text with the colour and effects to show it in.
pub struct StyledText {
    pub text: String,
    pub color: String,
    pub effects: Vec<Effect>,
}

impl Character {
    pub open spec fn spec_default_duration() -> u64 {
        20
    }

    pub fn default_duration() -> (r: u64)
        ensures
            r == Self::spec_default_duration(),
    {
        20
    }

    /// The character that speaks a name no character was registered under.
    pub fn default() -> (r: Character)
        ensures
            r.name@ == "__default__"@,
            r.style.color@ == "light black"@,
            r.style.effects@.len() == 0,
            r.duration == Self::spec_default_duration(),
    {
        Character {
            name: String::from_str("__default__"),
            style: CharacterStyle::default(),
            duration: Self::default_duration(),
        }
    }

    /// `text` in this character's colour, with its effects followed by `effects`.
    pub fn style_with(&self, text: String, effects: &Vec<Effect>) -> (r: StyledText)
        ensures
            r.text@ == text@,
            r.color@ == self.style.color@,
            r.effects@ == self.style.effects@ + effects@,
    {
        let mut all = self.style.duplicate().effects;
        let mut k: usize = 0;
        while k < effects.len()
            invariant
                k <= effects@.len(),
                all@ == self.style.effects@ + effects@.subrange(0, k as int),
            decreases effects.len() - k,
        {
            all.push(effects[k]);
            k = k + 1;
            assert(all@ =~= self.style.effects@ + effects@.subrange(0, k as int));
        }
        assert(effects@.subrange(0, effects@.len() as int) =~= effects@);
        StyledText { text, color: self.style.color.clone(), effects: all }
    }

    /// `text` in this character's colour and effects.
    pub fn style(&self, text: String) -> (r: StyledText)
        ensures
            r.text@ == text@,
            r.color@ == self.style.color@,
            r.effects@ == self.style.effects@,
    {
        let none: Vec<Effect> = Vec::new();
        let r = self.style_with(text, &none);
        assert(self.style.effects@ + none@ =~= self.style.effects@);
        r
    }

    /// A copy with the same name, style and pace.
    pub fn duplicate(&self) -> (r: Character)
        ensures
            r.name@ == self.name@,
            r.style.color@ == self.style.color@,
            r.style.effects@ == self.style.effects@,
            r.duration == self.duration,
    {
        Character { name: self.name.clone(), style: self.style.duplicate(), duration: self.duration }
    }
}

} // verus!
