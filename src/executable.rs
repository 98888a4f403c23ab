use vstd::prelude::*;

use crate::character::{Character, StyledText};
use crate::character_style::Effect;
use crate::condition::{all_guards, all_hold, Condition};
use crate::initializer::{Initializer, InitializerData};
use crate::runtime::{expansion, let_outcome, with_string, RuntimeState, LAST_INPUT_NAME};
use crate::section::{node_at, node_ref, Section};
use crate::show_input::{Alignment, ShowType};
use crate::capture::Capture;
use crate::switcher::{chosen, Switcher};
use crate::text::same_text;

verus! {

/// The tree a frame runs in: the entry document's, or a stored document's.
#[derive(Clone, Copy, Debug, PartialEq, Eq, Structural)]
pub enum Root {
    Entry,
    Stored(usize),
}

/// A pending piece of work of a running script.
pub enum Frame {
    /// Run the node at `path` under `root`, from step `stage` of it.
    Node { root: Root, path: Vec<usize>, stage: usize },
    /// Leave the stored document at this index of the store.
    Leave(usize),
}

pub enum FrameView {
    Node { root: Root, path: Seq<usize>, stage: nat },
    Leave(nat),
}

impl View for Frame {
    type V = FrameView;

    open spec fn view(&self) -> FrameView {
        match self {
            Frame::Node { root, path, stage } => FrameView::Node { root: *root, path: path@, stage: *stage as nat },
            Frame::Leave(k) => FrameView::Leave(*k as nat),
        }
    }
}

/// An effect the presentation carries out for a running script.
pub enum Command {
    /// Clear the displayed text.
    Clear,
    /// Append a line of text.
    Append(String),
    /// Type out a speaker's name at the fixed pace of labels.
    TypeLabel(StyledText),
    /// Type out a line at `speed` characters per second.
    TypeLine { line: StyledText, speed: u64 },
    /// Display text art.
    SetFrame(String),
    /// Clear the displayed art.
    ClearFrame,
    /// Align the displayed art.
    AlignFrame(Alignment),
    /// Show a banner for `wait` seconds.
    ShowTitle { text: String, wait: u64 },
    /// Wait for whole seconds.
    Sleep(u64),
    /// Read a line of input and hand it to `supply_line`.
    ReadLine,
    /// A `let` expression failed to evaluate: the run stops.
    LetFailed(String),
    /// A resolved reference names no stored document: the run stops.
    Unresolved(String),
}

/// What one step of a running script produced.
pub enum Step {
    /// Work was done that the presentation does not see.
    Idle,
    /// The presentation is to carry out this command.
    Run(Command),
    /// Nothing is left to run.
    Finished,
}

/// The tree of a root.
pub open spec fn root_tree(data: InitializerData, entry: Section, root: Root) -> Option<Section> {
    match root {
        Root::Entry => Some(entry),
        Root::Stored(k) => if k < data.compiled_refs@.len() {
            Some(data.compiled_refs@[k as int].1)
        } else {
            None
        },
    }
}

/// The node a frame runs.
pub open spec fn frame_node(data: InitializerData, entry: Section, root: Root, path: Seq<usize>) -> Option<Section> {
    match root_tree(data, entry, root) {
        Some(t) => node_at(t, path),
        None => None,
    }
}

/// Frames for the children `0..n` of a node, the first child on top.
pub open spec fn child_frames(root: Root, path: Seq<usize>, n: nat) -> Seq<FrameView> {
    Seq::new(n, |i: int| FrameView::Node { root, path: path.push((n - 1 - i) as usize), stage: 0 })
}

/// The stored document `k` is being run: a frame leaves it further down.
pub open spec fn is_running(stack: Seq<FrameView>, k: nat) -> bool {
    exists|i: int| 0 <= i < stack.len() && stack[i] == FrameView::Leave(k)
}

/// The character that speaks as `name`: the first registered under it, or the default.
pub open spec fn speaker_of(data: InitializerData, name: Seq<char>, c: Character) -> bool {
    (exists|i: int| 0 <= i < data.characters@.len() && data.characters@[i] == c && c.name@ == name
        && forall|j: int| 0 <= j < i ==> #[trigger] data.characters@[j].name@ != name)
        || (c == data.default_character && forall|i: int| 0 <= i < data.characters@.len() ==> #[trigger] data.characters@[i].name@ != name)
}

/// The pace of a line: the block's own, else its speaker's.
pub open spec fn pace(duration: Option<u64>, c: Character) -> u64 {
    match duration {
        Some(d) => d,
        None => c.duration,
    }
}

/// The commands of a dialogue block, two per line: the speaker's name
/// underlined in their style, then ": " and the line in their style.
pub open spec fn dialog_command(data: InitializerData, dialogs: Seq<(String, String)>, duration: Option<u64>, stage: int, cmd: Command) -> bool {
    let k = stage / 2;
    let speaker = dialogs[k].0@;
    let line = dialogs[k].1@;
    exists|c: Character| speaker_of(data, speaker, c) && if stage % 2 == 0 {
        (cmd matches Command::TypeLabel(t) && t.text@ == speaker && t.color@ == c.style.color@
            && t.effects@ == c.style.effects@.push(Effect::Underline))
    } else {
        (cmd matches Command::TypeLine { line: t, speed } && t.text@ == ": "@ + line
            && t.color@ == c.style.color@ && t.effects@ == c.style.effects@ && speed == pace(duration, c))
    }
}

/// The command for a line of a text block: the line in its speaker's style.
pub open spec fn text_command(data: InitializerData, dialogs: Seq<(String, String)>, duration: Option<u64>, stage: int, cmd: Command) -> bool {
    exists|c: Character| speaker_of(data, dialogs[stage].0@, c)
        && (cmd matches Command::TypeLine { line: t, speed } && t.text@ == dialogs[stage].1@
            && t.color@ == c.style.color@ && t.effects@ == c.style.effects@ && speed == pace(duration, c))
}

/// The frame that runs the same node from the next stage, where one is left.
pub open spec fn next_stage(root: Root, path: Seq<usize>, stage: nat, total: nat) -> Seq<FrameView> {
    if stage + 1 < total {
        seq![FrameView::Node { root, path, stage: stage + 1 }]
    } else {
        Seq::empty()
    }
}

/// The number of commands a `show` gives: align and display, then, when it
/// lasts, wait and clear.
pub open spec fn show_stages(duration: Option<u64>) -> nat {
    if duration is Some {
        4
    } else {
        2
    }
}

/// The command a `show` gives at each of its stages.
pub open spec fn show_command(input: crate::show_input::ShowInput, stage: int, cmd: Command) -> bool {
    if stage == 0 {
        cmd == Command::AlignFrame(input.alignment)
    } else if stage == 1 {
        cmd matches Command::SetFrame(f) && f@ == input.frame.spec_frame()
    } else if stage == 2 {
        cmd == Command::Sleep(input.duration->Some_0)
    } else {
        cmd == Command::ClearFrame
    }
}

/// The frame of the arm a branch takes: `then` where its conditions hold,
/// else `otherwise` where there is one.
pub open spec fn branch_frames(root: Root, path: Seq<usize>, holds: bool, has_otherwise: bool) -> Seq<FrameView> {
    if holds {
        seq![FrameView::Node { root, path: path.push(0), stage: 0 }]
    } else if has_otherwise {
        seq![FrameView::Node { root, path: path.push(1), stage: 0 }]
    } else {
        Seq::empty()
    }
}

/// The first index of the store that holds `p`, if one does.
pub open spec fn store_index(data: InitializerData, p: Seq<char>, k: int) -> bool {
    0 <= k < data.compiled_refs@.len() && data.compiled_refs@[k].0@ == p
        && forall|j: int| 0 <= j < k ==> data.compiled_refs@[j].0@ != p
}

/// What running node `n` of the frame (`root`, `path`, `stage`) does: the
/// frames below it were `rest` and are `frames` after. (A dialogue block whose
/// commands cannot be counted in a `usize` is skipped; no such block fits in
/// memory.)
pub open spec fn node_step(
    data: InitializerData,
    n: Section,
    root: Root,
    path: Seq<usize>,
    stage: nat,
    s0: RuntimeState,
    s1: RuntimeState,
    rest: Seq<FrameView>,
    frames: Seq<FrameView>,
    awaiting: Option<(Root, Seq<usize>)>,
    r: Step,
) -> bool {
    &&& (!(n is Let) ==> s1 == s0)
    &&& match n {
        Section::Sequence(v) => r is Idle && awaiting is None && frames == rest + child_frames(root, path, v@.len()),
        Section::Clear => r == Step::Run(Command::Clear) && awaiting is None && frames == rest,
        Section::Print(t) => (r matches Step::Run(Command::Append(x)) && x@ == expansion(t@, s0.context)) && awaiting is None && frames == rest,
        Section::Wait(secs) => r == Step::Run(Command::Sleep(secs)) && awaiting is None && frames == rest,
        Section::Title(t) => (r matches Step::Run(Command::ShowTitle { text, wait }) && text@ == t.text@ && wait == t.wait)
            && awaiting is None && frames == rest,
        Section::Dialog(input) => awaiting is None && if stage < 2 * input.dialogs@.len() && 2 * input.dialogs@.len() <= usize::MAX {
            (r matches Step::Run(cmd) && dialog_command(data, input.dialogs@, input.duration, stage as int, cmd))
                && frames == rest + next_stage(root, path, stage, 2 * input.dialogs@.len())
        } else {
            r is Idle && frames == rest
        },
        Section::Text(input) => awaiting is None && if stage < input.dialogs@.len() {
            (r matches Step::Run(cmd) && text_command(data, input.dialogs@, input.duration, stage as int, cmd))
                && frames == rest + next_stage(root, path, stage, input.dialogs@.len())
        } else {
            r is Idle && frames == rest
        },
        Section::Show(input) => awaiting is None && if stage < show_stages(input.duration) {
            (r matches Step::Run(cmd) && show_command(input, stage as int, cmd))
                && frames == rest + next_stage(root, path, stage, show_stages(input.duration))
        } else {
            r is Idle && frames == rest
        },
        Section::ResolvedRefer(p) => awaiting is None && if !crate::initializer::store_keys(data.compiled_refs@).contains(p@) {
            (r matches Step::Run(Command::Unresolved(q)) && q@ == p@) && frames.len() == 0
        } else {
            exists|k: int| store_index(data, p@, k) && r is Idle && if is_running(rest, k as nat) {
                frames == rest
            } else {
                frames == rest + seq![FrameView::Leave(k as nat), FrameView::Node { root: Root::Stored(k as usize), path: Seq::empty(), stage: 0 }]
            }
        },
        Section::Input(_) => r == Step::Run(Command::ReadLine) && frames == rest && awaiting == Some((root, path)),
        Section::Switch(sw) => r is Idle && awaiting is None
            && frames == rest + chosen_frames(sw.outcomes(s0), sw.has_default(), root, path),
        Section::Branch { conditions, otherwise, .. } => r is Idle && awaiting is None
            && frames == rest + branch_frames(root, path, all_guards(conditions@, s0), otherwise is Some),
        Section::Let(e) => awaiting is None && s1.last_in == s0.last_in && s1.context == let_outcome(e@, s0.context).1
            && if let_outcome(e@, s0.context).0 {
                r is Idle && frames == rest
            } else {
                (r matches Step::Run(Command::LetFailed(x)) && x@ == e@) && frames.len() == 0
            },
        _ => r is Idle && awaiting is None && frames == rest,
    }
}

/// The frame of the body a switcher runs, given whether each case holds.
pub open spec fn chosen_frames(outcomes: Seq<bool>, has_default: bool, root: Root, path: Seq<usize>) -> Seq<FrameView> {
    match chosen(outcomes, has_default) {
        Some(i) => seq![FrameView::Node { root, path: path.push(i as usize), stage: 0 }],
        None => Seq::empty(),
    }
}

/// `path` with `i` appended.
fn extend_path(path: &Vec<usize>, i: usize) -> (r: Vec<usize>)
    ensures
        r@ == path@.push(i),
{
    let mut r: Vec<usize> = Vec::new();
    let mut k: usize = 0;
    while k < path.len()
        invariant
            k <= path@.len(),
            r@ == path@.subrange(0, k as int),
        decreases path.len() - k,
    {
        r.push(path[k]);
        k = k + 1;
        assert(r@ =~= path@.subrange(0, k as int));
    }
    r.push(i);
    assert(r@ =~= path@.push(i));
    r
}

/// The node a frame runs.
pub fn frame_node_ref<'a>(data: &'a InitializerData, entry: &'a Section, root: Root, path: &Vec<usize>) -> (r: Option<&'a Section>)
    ensures
        match r {
            Some(n) => frame_node(*data, *entry, root, path@) == Some(*n),
            None => frame_node(*data, *entry, root, path@) is None,
        },
{
    match root {
        Root::Entry => node_ref(entry, path),
        Root::Stored(k) => if k < data.compiled_refs.len() {
            node_ref(&data.compiled_refs[k].1, path)
        } else {
            None
        },
    }
}

/// The character that speaks as `name`.
pub fn speaker<'a>(data: &'a InitializerData, name: &str) -> (r: &'a Character)
    ensures
        speaker_of(*data, name@, *r),
{
    let mut k: usize = 0;
    while k < data.characters.len()
        invariant
            k <= data.characters@.len(),
            forall|i: int| 0 <= i < k ==> #[trigger] data.characters@[i].name@ != name@,
        decreases data.characters.len() - k,
    {
        if same_text(data.characters[k].name.as_str(), name) {
            return &data.characters[k];
        }
        k = k + 1;
    }
    &data.default_character
}

/// Whether a frame further down leaves stored document `k`.
fn running(stack: &Vec<Frame>, k: usize) -> (r: bool)
    ensures
        r == is_running(stack@.map_values(|f: Frame| f@), k as nat),
{
    let ghost fs = stack@.map_values(|f: Frame| f@);
    let mut i: usize = 0;
    while i < stack.len()
        invariant
            i <= stack@.len(),
            fs == stack@.map_values(|f: Frame| f@),
            forall|j: int| 0 <= j < i ==> fs[j] != FrameView::Leave(k as nat),
        decreases stack.len() - i,
    {
        match &stack[i] {
            Frame::Leave(m) => if *m == k {
                assert(fs[i as int] == FrameView::Leave(k as nat));
                return true;
            },
            _ => {},
        }
        i = i + 1;
    }
    false
}

/// The frame of the body an input node runs once its line is in `state`.
pub open spec fn input_frames(sw: Switcher<Capture>, state: RuntimeState, root: Root, path: Seq<usize>) -> Seq<FrameView> {
    chosen_frames(sw.outcomes(state), sw.has_default(), root, path)
}

/// A reference to a stored document that is already being run does nothing
/// when run: a script that refers to itself does not enter itself again.
pub proof fn lemma_cyclic_reference_is_noop(
    data: InitializerData,
    p: String,
    k: int,
    root: Root,
    path: Seq<usize>,
    stage: nat,
    s0: RuntimeState,
    s1: RuntimeState,
    rest: Seq<FrameView>,
    frames: Seq<FrameView>,
    awaiting: Option<(Root, Seq<usize>)>,
    r: Step,
)
    requires
        node_step(data, Section::ResolvedRefer(p), root, path, stage, s0, s1, rest, frames, awaiting, r),
        store_index(data, p@, k),
        is_running(rest, k as nat),
    ensures
        r is Idle,
        frames == rest,
        awaiting is None,
        s1 == s0,
{
    assert(crate::initializer::store_keys(data.compiled_refs@).contains(p@));
    let k2 = choose|k2: int| store_index(data, p@, k2) && r is Idle && if is_running(rest, k2 as nat) {
        frames == rest
    } else {
        frames == rest + seq![FrameView::Leave(k2 as nat), FrameView::Node { root: Root::Stored(k2 as usize), path: Seq::empty(), stage: 0 }]
    };
    assert(k2 == k) by {
        if k2 < k {
            assert(data.compiled_refs@[k2].0@ != p@);
        } else if k < k2 {
            assert(data.compiled_refs@[k].0@ != p@);
        }
    }
}

/// One step of a run whose frames were `f0`, waiting on `a0`, and are `f1`,
/// waiting on `a1`, after: while an input node waits, it asks for the line
/// again; with no frame left, the run is finished; else the frame on top is
/// taken off and run.
pub open spec fn stepped(
    data: InitializerData,
    entry: Section,
    s0: RuntimeState,
    s1: RuntimeState,
    f0: Seq<FrameView>,
    a0: Option<(Root, Seq<usize>)>,
    f1: Seq<FrameView>,
    a1: Option<(Root, Seq<usize>)>,
    r: Step,
) -> bool {
    if a0 is Some {
        r == Step::Run(Command::ReadLine) && f1 == f0 && a1 == a0 && s1 == s0
    } else if f0.len() == 0 {
        r is Finished && f1 == f0 && a1 is None && s1 == s0
    } else {
        match f0.last() {
            FrameView::Leave(_) => r is Idle && a1 is None && f1 == f0.drop_last() && s1 == s0,
            FrameView::Node { root, path, stage } => match frame_node(data, entry, root, path) {
                None => r is Idle && a1 is None && f1 == f0.drop_last() && s1 == s0,
                Some(n) => node_step(data, n, root, path, stage, s0, s1, f0.drop_last(), f1, a1, r),
            },
        }
    }
}

/// A running script: the frames left to run, the last on top, and the input
/// node waiting for a line, if any.
pub struct Execution {
    pub stack: Vec<Frame>,
    pub awaiting: Option<(Root, Vec<usize>)>,
}

impl Execution {
    pub open spec fn frames(&self) -> Seq<FrameView> {
        self.stack@.map_values(|f: Frame| f@)
    }

    /// A run of the entry document from its root.
    pub fn start() -> (r: Execution)
        ensures
            r.frames() == seq![FrameView::Node { root: Root::Entry, path: Seq::empty(), stage: 0 }],
            r.awaiting is None,
    {
        let mut stack: Vec<Frame> = Vec::new();
        stack.push(Frame::Node { root: Root::Entry, path: Vec::new(), stage: 0 });
        let r = Execution { stack, awaiting: None };
        assert(r.frames() =~= seq![FrameView::Node { root: Root::Entry, path: Seq::empty(), stage: 0 }]);
        r
    }

    pub open spec fn awaiting_view(&self) -> Option<(Root, Seq<usize>)> {
        match self.awaiting {
            Some((r, p)) => Some((r, p@)),
            None => None,
        }
    }

    fn push_frame(&mut self, f: Frame)
        ensures
            final(self).frames() == old(self).frames().push(f@),
            final(self).awaiting == old(self).awaiting,
    {
        self.stack.push(f);
        assert(self.frames() =~= old(self).frames().push(f@));
    }

    fn push_node(&mut self, root: Root, path: &Vec<usize>, i: usize)
        ensures
            final(self).frames() == old(self).frames().push(FrameView::Node { root, path: path@.push(i), stage: 0 }),
            final(self).awaiting == old(self).awaiting,
    {
        let p = extend_path(path, i);
        self.push_frame(Frame::Node { root, path: p, stage: 0 });
    }

    fn push_stage(&mut self, root: Root, path: Vec<usize>, stage: usize, total: usize)
        requires
            stage < total,
        ensures
            final(self).frames() == old(self).frames() + next_stage(root, path@, stage as nat, total as nat),
            final(self).awaiting == old(self).awaiting,
    {
        if stage + 1 < total {
            let ghost pv = path@;
            self.push_frame(Frame::Node { root, path, stage: stage + 1 });
            assert(self.frames() =~= old(self).frames() + next_stage(root, pv, stage as nat, total as nat));
        } else {
            assert(old(self).frames() + next_stage(root, path@, stage as nat, total as nat) =~= old(self).frames());
        }
    }

    fn clear_frames(&mut self)
        ensures
            final(self).frames().len() == 0,
            final(self).awaiting == old(self).awaiting,
    {
        self.stack = Vec::new();
        assert(self.frames() =~= Seq::<FrameView>::empty());
    }

    /// Runs one node of a frame that was taken off the stack.
    fn run_node(
        &mut self,
        node: &Section,
        root: Root,
        path: Vec<usize>,
        stage: usize,
        data: &InitializerData,
        state: &mut RuntimeState,
    ) -> (r: Step)
        requires
            old(self).awaiting is None,
        ensures
            node_step(*data, *node, root, path@, stage as nat, *old(state), *final(state), old(self).frames(),
                final(self).frames(), final(self).awaiting_view(), r),
    {
        match node {
            Section::Sequence(v) => {
                let n = v.len();
                let mut j: usize = 0;
                while j < n
                    invariant
                        n == v@.len(),
                        j <= n,
                        self.awaiting is None,
                        self.frames() == old(self).frames() + Seq::new(j as nat, |i: int| FrameView::Node { root, path: path@.push((n - 1 - i) as usize), stage: 0 }),
                    decreases n - j,
                {
                    self.push_node(root, &path, n - 1 - j);
                    j = j + 1;
                    assert(self.frames() =~= old(self).frames() + Seq::new(j as nat, |i: int| FrameView::Node { root, path: path@.push((n - 1 - i) as usize), stage: 0 }));
                }
                assert(child_frames(root, path@, n as nat) =~= Seq::new(n as nat, |i: int| FrameView::Node { root, path: path@.push((n - 1 - i) as usize), stage: 0 }));
                Step::Idle
            },
            Section::Clear => Step::Run(Command::Clear),
            Section::Print(t) => {
                let x = state.expand_string(t.as_str());
                Step::Run(Command::Append(x))
            },
            Section::Wait(secs) => Step::Run(Command::Sleep(*secs)),
            Section::Title(t) => Step::Run(Command::ShowTitle { text: t.text.clone(), wait: t.wait }),
            Section::Dialog(input) => {
                let len = input.dialogs.len();
                if len > usize::MAX / 2 || stage >= 2 * len {
                    return Step::Idle;
                }
                let k = stage / 2;
                let speaker_name = &input.dialogs[k].0;
                let c = speaker(data, speaker_name.as_str());
                let cmd = if stage % 2 == 0 {
                    let mut underline: Vec<Effect> = Vec::new();
                    underline.push(Effect::Underline);
                    let t = c.style_with(speaker_name.clone(), &underline);
                    assert(c.style.effects@ + underline@ =~= c.style.effects@.push(Effect::Underline));
                    Command::TypeLabel(t)
                } else {
                    let mut line = String::from_str(": ");
                    line.append(input.dialogs[k].1.as_str());
                    let speed = match input.duration {
                        Some(d) => d,
                        None => c.duration,
                    };
                    Command::TypeLine { line: c.style(line), speed }
                };
                self.push_stage(root, path, stage, 2 * len);
                Step::Run(cmd)
            },
            Section::Text(input) => {
                let len = input.dialogs.len();
                if stage >= len {
                    return Step::Idle;
                }
                let c = speaker(data, input.dialogs[stage].0.as_str());
                let speed = match input.duration {
                    Some(d) => d,
                    None => c.duration,
                };
                let cmd = Command::TypeLine { line: c.style(input.dialogs[stage].1.clone()), speed };
                self.push_stage(root, path, stage, len);
                Step::Run(cmd)
            },
            Section::Show(input) => {
                let total: usize = if input.duration.is_some() {
                    4
                } else {
                    2
                };
                if stage >= total {
                    return Step::Idle;
                }
                let cmd = if stage == 0 {
                    Command::AlignFrame(input.alignment)
                } else if stage == 1 {
                    Command::SetFrame(input.frame.get_frame())
                } else if stage == 2 {
                    match input.duration {
                        Some(d) => Command::Sleep(d),
                        None => Command::ClearFrame,
                    }
                } else {
                    Command::ClearFrame
                };
                self.push_stage(root, path, stage, total);
                Step::Run(cmd)
            },
            Section::ResolvedRefer(p) => match data.find_compiled(p.as_str()) {
                None => {
                    self.clear_frames();
                    Step::Run(Command::Unresolved(p.clone()))
                },
                Some(k) => {
                    assert(crate::initializer::store_keys(data.compiled_refs@).contains(p@)) by {
                        assert(data.compiled_refs@[k as int].0@ == p@);
                    }
                    assert(store_index(*data, p@, k as int));
                    if !running(&self.stack, k) {
                        self.push_frame(Frame::Leave(k));
                        self.push_frame(Frame::Node { root: Root::Stored(k), path: Vec::new(), stage: 0 });
                        assert(self.frames() =~= old(self).frames() + seq![FrameView::Leave(k as nat), FrameView::Node { root: Root::Stored(k), path: Seq::empty(), stage: 0 }]);
                    }
                    Step::Idle
                },
            },
            Section::Input(_) => {
                let ghost pv = path@;
                self.awaiting = Some((root, path));
                assert(self.frames() == old(self).frames());
                Step::Run(Command::ReadLine)
            },
            Section::Switch(sw) => {
                let sel = sw.select(state);
                let ghost outcomes = sw.outcomes(*state);
                match sel {
                    Some(i) => {
                        self.push_node(root, &path, i);
                        assert(self.frames() =~= old(self).frames() + seq![FrameView::Node { root, path: path@.push(i), stage: 0 }]);
                    },
                    None => {
                        assert(old(self).frames() + Seq::<FrameView>::empty() =~= old(self).frames());
                    },
                }
                assert(self.frames() == old(self).frames() + chosen_frames(outcomes, sw.has_default(), root, path@));
                Step::Idle
            },
            Section::Branch { conditions, otherwise, .. } => {
                if all_hold(conditions, state) {
                    self.push_node(root, &path, 0);
                    assert(self.frames() =~= old(self).frames() + branch_frames(root, path@, true, otherwise is Some));
                } else if otherwise.is_some() {
                    self.push_node(root, &path, 1);
                    assert(self.frames() =~= old(self).frames() + branch_frames(root, path@, false, otherwise is Some));
                } else {
                    assert(self.frames() =~= old(self).frames() + branch_frames(root, path@, false, otherwise is Some));
                }
                Step::Idle
            },
            Section::Let(e) => {
                if state.var_expr(e.as_str()) {
                    Step::Idle
                } else {
                    self.clear_frames();
                    Step::Run(Command::LetFailed(e.clone()))
                }
            },
            _ => Step::Idle,
        }
    }

    /// Runs the frame on top of the stack. While an input node waits for a
    /// line, asks for it again.
    pub fn step(&mut self, data: &InitializerData, entry: &Section, state: &mut RuntimeState) -> (r: Step)
        ensures
            stepped(*data, *entry, *old(state), *final(state), old(self).frames(), old(self).awaiting_view(),
                final(self).frames(), final(self).awaiting_view(), r),
    {
        if self.awaiting.is_some() {
            assert(self.awaiting_view() is Some);
            return Step::Run(Command::ReadLine);
        }
        let top = match self.stack.pop() {
            Some(f) => f,
            None => {
                assert(self.frames() =~= old(self).frames());
                return Step::Finished;
            },
        };
        assert(self.frames() =~= old(self).frames().drop_last());
        match top {
            Frame::Leave(_) => Step::Idle,
            Frame::Node { root, path, stage } => match frame_node_ref(data, entry, root, &path) {
                None => Step::Idle,
                Some(node) => self.run_node(node, root, path, stage, data, state),
            },
        }
    }

    /// Hands the line read for the waiting input node to the state, then
    /// runs the body of the first case whose captures all match it, else the
    /// default, if any.
    pub fn supply_line(&mut self, data: &InitializerData, entry: &Section, state: &mut RuntimeState, line: String)
        ensures
            final(state).last_in@ == line@,
            final(state).context == match with_string(old(state).context, LAST_INPUT_NAME@, line@) {
                Some(c) => c,
                None => old(state).context,
            },
            final(self).awaiting is None,
            match old(self).awaiting_view() {
                Some((root, path)) => match frame_node(*data, *entry, root, path) {
                    Some(Section::Input(sw)) => final(self).frames() == old(self).frames() + input_frames(sw, *final(state), root, path),
                    _ => final(self).frames() == old(self).frames(),
                },
                None => final(self).frames() == old(self).frames(),
            },
    {
        let _bound = state.update_input(line);
        let waiting = self.awaiting.take();
        match waiting {
            Some((root, path)) => match frame_node_ref(data, entry, root, &path) {
                Some(Section::Input(sw)) => {
                    let sel = sw.select(state);
                    match sel {
                        Some(i) => {
                            self.push_node(root, &path, i);
                            assert(self.frames() =~= old(self).frames() + input_frames(*sw, *state, root, path@));
                        },
                        None => {
                            assert(self.frames() =~= old(self).frames() + input_frames(*sw, *state, root, path@));
                        },
                    }
                },
                _ => {},
            },
            None => {},
        }
    }
}

impl Initializer {
    /// Runs one step of `exec` on this script's trees and state.
    pub fn execute(&mut self, exec: &mut Execution) -> (r: Step)
        ensures
            final(self).data == old(self).data,
            final(self).entry == old(self).entry,
            stepped(old(self).data, old(self).entry, old(self).state, final(self).state, old(exec).frames(), old(exec).awaiting_view(),
                final(exec).frames(), final(exec).awaiting_view(), r),
    {
        exec.step(&self.data, &self.entry, &mut self.state)
    }

    /// Hands a line read for the waiting input node of `exec` to this script.
    pub fn supply_line(&mut self, exec: &mut Execution, line: String)
        ensures
            final(self).state.last_in@ == line@,
            final(self).state.context == match with_string(old(self).state.context, LAST_INPUT_NAME@, line@) {
                Some(c) => c,
                None => old(self).state.context,
            },
            final(self).data == old(self).data,
            final(self).entry == old(self).entry,
            final(exec).awaiting is None,
            match old(exec).awaiting_view() {
                Some((root, path)) => match frame_node(old(self).data, old(self).entry, root, path) {
                    Some(Section::Input(sw)) => final(exec).frames() == old(exec).frames() + input_frames(sw, final(self).state, root, path),
                    _ => final(exec).frames() == old(exec).frames(),
                },
                None => final(exec).frames() == old(exec).frames(),
            },
    {
        exec.supply_line(&self.data, &self.entry, &mut self.state, line)
    }
}

} // verus!
