use vstd::prelude::*;

use crate::text::same_text;

verus! {

/// A text effect of a character's lines.
#[derive(Clone, Copy, Debug, PartialEq, Eq, Structural)]
pub enum Effect {
    Simple,
    Reverse,
    Dim,
    Bold,
    Italic,
    Strikethrough,
    Underline,
    Blink,
}

/// The lower-case form of a text.
pub uninterp spec fn lowercase_of(s: Seq<char>) -> Seq<char>;

/// Relies on std's `str::to_lowercase`: the result depends on the text alone.
#[verifier::external_body]
fn lowercase(s: &str) -> (r: String)
    ensures
        r@ == lowercase_of(s@),
{
    s.to_lowercase()
}

impl Effect {
    /// The effect an already lower-cased name stands for; `Simple` for a name
    /// that is not recognised.
    pub open spec fn spec_from_lowercase(name: Seq<char>) -> Effect {
        if name == "reverse"@ {
            Effect::Reverse
        } else if name == "dim"@ {
            Effect::Dim
        } else if name == "bold"@ {
            Effect::Bold
        } else if name == "italic"@ {
            Effect::Italic
        } else if name == "strikethrough"@ {
            Effect::Strikethrough
        } else if name == "underline"@ || name == "underlined"@ {
            Effect::Underline
        } else if name == "blink"@ {
            Effect::Blink
        } else {
            Effect::Simple
        }
    }

    /// The effect an already lower-cased name stands for.
    pub fn from_lowercase(name: &str) -> (r: Effect)
        ensures
            r == Self::spec_from_lowercase(name@),
    {
        if same_text(name, "reverse") {
            Effect::Reverse
        } else if same_text(name, "dim") {
            Effect::Dim
        } else if same_text(name, "bold") {
            Effect::Bold
        } else if same_text(name, "italic") {
            Effect::Italic
        } else if same_text(name, "strikethrough") {
            Effect::Strikethrough
        } else if same_text(name, "underline") || same_text(name, "underlined") {
            Effect::Underline
        } else if same_text(name, "blink") {
            Effect::Blink
        } else {
            Effect::Simple
        }
    }

    /// The effect a name stands for, whatever its case.
    pub fn from_name(name: &str) -> (r: Effect)
        ensures
            r == Self::spec_from_lowercase(lowercase_of(name@)),
    {
        let lower = lowercase(name);
        Self::from_lowercase(lower.as_str())
    }
}

/// The colour and effects of a character's lines.
pub struct CharacterStyle {
    /// The colour's name, as the presentation reads it.
    pub color: String,
    pub effects: Vec<Effect>,
}

impl CharacterStyle {
    pub fn default_color() -> (r: String)
        ensures
            r@ == "light black"@,
    {
        String::from_str("light black")
    }

    pub fn default_effects() -> (r: Vec<Effect>)
        ensures
            r@.len() == 0,
    {
        Vec::new()
    }

    /// A style with the default colour and no effects.
    pub fn default() -> (r: CharacterStyle)
        ensures
            r.color@ == "light black"@,
            r.effects@.len() == 0,
    {
        CharacterStyle { color: Self::default_color(), effects: Self::default_effects() }
    }

    /// The effects named in `names`, in order, each whatever its case.
    pub fn effects_from_names(names: &Vec<String>) -> (r: Vec<Effect>)
        ensures
            r@.len() == names@.len(),
            forall|i: int|
                0 <= i < names@.len() ==> #[trigger] r@[i] == Effect::spec_from_lowercase(
                    lowercase_of(names@[i]@),
                ),
    {
        let mut r: Vec<Effect> = Vec::new();
        let mut k: usize = 0;
        while k < names.len()
            invariant
                k <= names@.len(),
                r@.len() == k,
                forall|i: int|
                    0 <= i < k ==> #[trigger] r@[i] == Effect::spec_from_lowercase(
                        lowercase_of(names@[i]@),
                    ),
            decreases names.len() - k,
        {
            r.push(Effect::from_name(names[k].as_str()));
            k = k + 1;
        }
        r
    }

    /// A copy with the same colour and effects.
    pub fn duplicate(&self) -> (r: CharacterStyle)
        ensures
            r.color@ == self.color@,
            r.effects@ == self.effects@,
    {
        let mut effects: Vec<Effect> = Vec::new();
        let mut k: usize = 0;
        while k < self.effects.len()
            invariant
                k <= self.effects@.len(),
                effects@ == self.effects@.subrange(0, k as int),
            decreases self.effects.len() - k,
        {
            effects.push(self.effects[k]);
            k = k + 1;
            assert(effects@ =~= self.effects@.subrange(0, k as int));
        }
        assert(effects@ =~= self.effects@);
        CharacterStyle { color: self.color.clone(), effects }
    }
}

} // verus!
