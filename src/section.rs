use vstd::prelude::*;

use crate::capture::Capture;
use crate::character::Character;
use crate::condition::Conditional;
use crate::show_input::ShowInput;
use crate::switcher::Switcher;
use crate::text_input::{TextInput, TitleInput};

verus! {

/// A node of a script: one instruction of the narrative tree.
pub enum Section {
    Sequence(Vec<Section>),
    Clear,
    Dialog(TextInput),
    /// Like `Dialog`, without the speakers' names.
    Text(TextInput),
    Title(TitleInput),
    Print(String),
    Wait(u64),
    /// A reference to another document, relative to this one's directory.
    Refer(String),
    /// A reference rewritten by compilation to the path of its compiled document.
    ResolvedRefer(String),
    /// The mark a document's path holds while it is being compiled.
    PendingCompilation,
    CharacterDef(Character),
    Input(Switcher<Capture>),
    Switch(Switcher<Conditional>),
    Branch { conditions: Vec<Conditional>, then: Box<Section>, otherwise: Option<Box<Section>> },
    Let(String),
    Show(ShowInput),
}

impl Section {
    /// The `i`-th child of a node: the items of a sequence; the cases then
    /// the default of an input or a switch; the two arms of a branch.
    pub open spec fn child(&self, i: int) -> Option<Section> {
        match self {
            Section::Sequence(v) => if 0 <= i < v@.len() {
                Some(v@[i])
            } else {
                None
            },
            Section::Input(sw) => sw.spec_child(i),
            Section::Switch(sw) => sw.spec_child(i),
            Section::Branch { then, otherwise, .. } => if i == 0 {
                Some(**then)
            } else if i == 1 && otherwise is Some {
                Some(*otherwise->Some_0)
            } else {
                None
            },
            _ => None,
        }
    }

    pub fn child_ref(&self, i: usize) -> (r: Option<&Section>)
        ensures
            match r {
                Some(c) => self.child(i as int) == Some(*c),
                None => self.child(i as int) is None,
            },
    {
        match self {
            Section::Sequence(v) => if i < v.len() {
                Some(&v[i])
            } else {
                None
            },
            Section::Input(sw) => if i < sw.cases.len() {
                Some(&sw.cases[i].section)
            } else if i == sw.cases.len() {
                match &sw.default {
                    Some(d) => Some(&**d),
                    None => None,
                }
            } else {
                None
            },
            Section::Switch(sw) => if i < sw.cases.len() {
                Some(&sw.cases[i].section)
            } else if i == sw.cases.len() {
                match &sw.default {
                    Some(d) => Some(&**d),
                    None => None,
                }
            } else {
                None
            },
            Section::Branch { then, otherwise, .. } => if i == 0 {
                Some(&**then)
            } else if i == 1 {
                match otherwise {
                    Some(o) => Some(&**o),
                    None => None,
                }
            } else {
                None
            },
            _ => None,
        }
    }
}

/// The node reached from `root` by following the child indices of `path`.
pub open spec fn node_at(root: Section, path: Seq<usize>) -> Option<Section>
    decreases path.len(),
{
    if path.len() == 0 {
        Some(root)
    } else {
        match node_at(root, path.drop_last()) {
            Some(n) => n.child(path.last() as int),
            None => None,
        }
    }
}

/// The node reached from `root` by following `path`.
pub fn node_ref<'a>(root: &'a Section, path: &Vec<usize>) -> (r: Option<&'a Section>)
    ensures
        match r {
            Some(n) => node_at(*root, path@) == Some(*n),
            None => node_at(*root, path@) is None,
        },
{
    let mut cur: &Section = root;
    let mut k: usize = 0;
    assert(path@.subrange(0, 0) =~= Seq::<usize>::empty());
    while k < path.len()
        invariant
            k <= path@.len(),
            node_at(*root, path@.subrange(0, k as int)) == Some(*cur),
        decreases path.len() - k,
    {
        assert(path@.subrange(0, k + 1).drop_last() =~= path@.subrange(0, k as int));
        match cur.child_ref(path[k]) {
            Some(c) => {
                cur = c;
            },
            None => {
                proof { lemma_node_at_dead(*root, path@, k as int + 1); }
                return None;
            },
        }
        k = k + 1;
    }
    assert(path@.subrange(0, path@.len() as int) =~= path@);
    Some(cur)
}

/// A path that leaves the tree stays outside it when extended.
pub proof fn lemma_node_at_dead(root: Section, path: Seq<usize>, k: int)
    requires
        0 <= k <= path.len(),
        node_at(root, path.subrange(0, k)) is None,
    ensures
        node_at(root, path) is None,
    decreases path.len() - k,
{
    if k < path.len() {
        assert(path.subrange(0, k + 1).drop_last() =~= path.subrange(0, k));
        lemma_node_at_dead(root, path, k + 1);
    } else {
        assert(path.subrange(0, k) =~= path);
    }
}

} // verus!
