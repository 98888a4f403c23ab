use vstd::prelude::*;

use std::path::PathBuf;

use crate::character::Character;
use crate::compiled::CompileError;
use crate::file_format::{FileFormat, FormatError};
use crate::path_reference::{logical_path_of, logical_path_text, with_extension_of, with_extension_text, PathReference};
use crate::runtime::RuntimeState;
use crate::section::{node_at, Section};
use crate::show_input::{positioned, ShowInput, ShowType};
use crate::switcher::{Case, Switcher};
use crate::text::same_text;

verus! {

/// The directory that holds `path`.
pub uninterp spec fn parent_of(path: Seq<char>) -> Seq<char>;

/// Relies on std's `PathBuf::pop`: the path without its last component.
#[verifier::external_body]
pub(crate) fn parent_dir(path: &str) -> (r: String)
    ensures
        r@ == parent_of(path@),
{
    let mut p = PathBuf::from(path);
    p.pop();
    p.to_string_lossy().into_owned()
}

/// The path under which a reference `rel` written in directory `base` is
/// compiled: `rel` with the notation's extension, read from `base` with `.`
/// and `..` resolved, so that every way of naming one file gives one path.
pub open spec fn canonical_path(rel: Seq<char>, ext: Seq<char>, base: Seq<char>) -> Seq<char> {
    logical_path_of(with_extension_of(rel, ext), base)
}

impl CompileError {
    /// A copy of the error.
    pub fn duplicate(&self) -> (r: CompileError)
        ensures
            r == *self,
    {
        match self {
            CompileError::Format(FormatError::JSON(m)) => CompileError::Format(FormatError::JSON(m.clone())),
            CompileError::Format(FormatError::YAML(m)) => CompileError::Format(FormatError::YAML(m.clone())),
            CompileError::IO(m) => CompileError::IO(m.clone()),
            CompileError::InvalidPath(m) => CompileError::InvalidPath(m.clone()),
            CompileError::Image(m) => CompileError::Image(m.clone()),
        }
    }
}

/// The directory that holds `path`: where references written in the
/// document at `path` are read from.
pub fn directory_of(path: &str) -> (r: String)
    ensures
        r@ == parent_of(path@),
{
    parent_dir(path)
}

/// The path of a script's entry document: `init` with the notation's
/// extension, in the script's directory.
pub fn entry_path(root: &str, extension: FileFormat) -> (r: String)
    ensures
        r@ == canonical_path("init"@, extension.spec_name(), root@),
{
    let with_ext = with_extension_text("init", extension.name());
    logical_path_text(with_ext.as_str(), root)
}

/// A file that compilation will read: a document under its canonical path,
/// or an image that a `show` names from directory `base`.
pub enum Request {
    Document(String),
    Image { file: PathReference, base: String, scale: u32, invert: bool },
}

/// `out` asks for what compiling node `n`, written in directory `base`,
/// reads: the document a reference names, the image a `show` names.
pub open spec fn requested(out: Seq<Request>, n: Section, ext: Seq<char>, base: Seq<char>) -> bool {
    match n {
        Section::Refer(rel) => exists|j: int| 0 <= j < out.len()
            && (#[trigger] out[j] matches Request::Document(q) && q@ == canonical_path(rel@, ext, base)),
        Section::Show(input) => match input.frame {
            ShowType::Path { file, scale, invert } => exists|j: int| 0 <= j < out.len()
                && (#[trigger] out[j] matches Request::Image { file: f, base: b, scale: s, invert: v }
                    && f == file && b@ == base && s == scale && v == invert),
            _ => true,
        },
        _ => true,
    }
}

proof fn lemma_requested_grows(a: Seq<Request>, b: Seq<Request>, n: Section, ext: Seq<char>, base: Seq<char>)
    requires
        requested(a, n, ext, base),
        b.len() >= a.len(),
        forall|j: int| 0 <= j < a.len() ==> #[trigger] b[j] == a[j],
    ensures
        requested(b, n, ext, base),
{
    match n {
        Section::Refer(rel) => {
            let j = choose|j: int| 0 <= j < a.len()
                && (#[trigger] a[j] matches Request::Document(q) && q@ == canonical_path(rel@, ext, base));
            assert(b[j] == a[j]);
        },
        Section::Show(input) => match input.frame {
            ShowType::Path { file, scale, invert } => {
                let j = choose|j: int| 0 <= j < a.len()
                    && (#[trigger] a[j] matches Request::Image { file: f, base: b, scale: s, invert: v }
                        && f == file && b@ == base && s == scale && v == invert);
                assert(b[j] == a[j]);
            },
            _ => {},
        },
        _ => {},
    }
}

/// The node at a path that starts with `i` is the node at the rest of the
/// path from child `i`.
pub proof fn lemma_node_at_first(root: Section, i: usize, p: Seq<usize>)
    ensures
        node_at(root, seq![i] + p) == match root.child(i as int) {
            Some(c) => node_at(c, p),
            None => None,
        },
    decreases p.len(),
{
    let q = seq![i] + p;
    if p.len() == 0 {
        assert(q.drop_last() =~= Seq::<usize>::empty());
    } else {
        assert(q.drop_last() =~= seq![i] + p.drop_last());
        lemma_node_at_first(root, i, p.drop_last());
        match root.child(i as int) {
            Some(c) => {},
            None => {
                assert(node_at(root, q.drop_last()) is None);
            },
        }
    }
}

/// `out` asks for what compiling each node of the tree `t` reads.
pub open spec fn subtree_requested(out: Seq<Request>, t: Section, ext: Seq<char>, base: Seq<char>) -> bool {
    forall|p: Seq<usize>| (#[trigger] node_at(t, p)) is Some ==> requested(out, node_at(t, p)->Some_0, ext, base)
}

proof fn lemma_subtree_grows(a: Seq<Request>, b: Seq<Request>, t: Section, ext: Seq<char>, base: Seq<char>)
    requires
        subtree_requested(a, t, ext, base),
        b.len() >= a.len(),
        forall|j: int| 0 <= j < a.len() ==> #[trigger] b[j] == a[j],
    ensures
        subtree_requested(b, t, ext, base),
{
    assert forall|p: Seq<usize>| (#[trigger] node_at(t, p)) is Some implies requested(b, node_at(t, p)->Some_0, ext, base) by {
        lemma_requested_grows(a, b, node_at(t, p)->Some_0, ext, base);
    }
}

proof fn lemma_subtree_from_children(n: Section, out: Seq<Request>, ext: Seq<char>, base: Seq<char>)
    requires
        requested(out, n, ext, base),
        forall|i: int| #[trigger] n.child(i) is Some ==> subtree_requested(out, n.child(i)->Some_0, ext, base),
    ensures
        subtree_requested(out, n, ext, base),
{
    assert forall|p: Seq<usize>| (#[trigger] node_at(n, p)) is Some implies requested(out, node_at(n, p)->Some_0, ext, base) by {
        if p.len() > 0 {
            let i = p[0];
            assert(p =~= seq![i] + p.drop_first());
            lemma_node_at_first(n, i, p.drop_first());
            assert(n.child(i as int) is Some);
            let c = n.child(i as int)->Some_0;
            assert(node_at(c, p.drop_first()) is Some);
        }
    }
}

/// Adds the requests of the cases' bodies, then of the default.
fn switcher_requests<C>(sw: &Switcher<C>, ext: &str, base: &str, out: &mut Vec<Request>)
    ensures
        final(out)@.len() >= old(out)@.len(),
        forall|j: int| 0 <= j < old(out)@.len() ==> #[trigger] final(out)@[j] == old(out)@[j],
        forall|i: int| 0 <= i < sw.cases@.len() ==> subtree_requested(final(out)@, #[trigger] sw.cases@[i].section, ext@, base@),
        sw.default matches Some(d) ==> subtree_requested(final(out)@, *d, ext@, base@),
    decreases sw, 0nat,
{
    let ghost o0 = out@;
    assert forall|i: int| 0 <= i < sw.cases@.len() implies decreases_to!(*sw => #[trigger] sw.cases@[i].section) by {
        assert(decreases_to!(*sw => sw.cases));
        assert(decreases_to!(sw.cases => sw.cases@));
        assert(decreases_to!(sw.cases@ => sw.cases@[i]));
    }
    let mut k: usize = 0;
    while k < sw.cases.len()
        invariant
            k <= sw.cases@.len(),
            out@.len() >= o0.len(),
            forall|j: int| 0 <= j < o0.len() ==> #[trigger] out@[j] == o0[j],
            forall|i: int| 0 <= i < k ==> subtree_requested(out@, #[trigger] sw.cases@[i].section, ext@, base@),
            forall|i: int| 0 <= i < sw.cases@.len() ==> decreases_to!(*sw => #[trigger] sw.cases@[i].section),
        decreases sw.cases.len() - k,
    {
        let ghost o1 = out@;
        sw.cases[k].section.requests(ext, base, out);
        proof {
            assert forall|i: int| 0 <= i < k + 1 implies subtree_requested(out@, #[trigger] sw.cases@[i].section, ext@, base@) by {
                if i < k {
                    lemma_subtree_grows(o1, out@, sw.cases@[i].section, ext@, base@);
                }
            }
        }
        k = k + 1;
    }
    match &sw.default {
        Some(d) => {
            let ghost o1 = out@;
            (**d).requests(ext, base, out);
            proof {
                assert forall|i: int| 0 <= i < sw.cases@.len() implies subtree_requested(out@, #[trigger] sw.cases@[i].section, ext@, base@) by {
                    lemma_subtree_grows(o1, out@, sw.cases@[i].section, ext@, base@);
                }
            }
        },
        None => {},
    }
}

impl Section {
    /// Adds to `out` the files that compiling this tree, written in directory
    /// `base`, will read: one request for each reference and each image in it.
    pub fn requests(&self, ext: &str, base: &str, out: &mut Vec<Request>)
        ensures
            final(out)@.len() >= old(out)@.len(),
            forall|j: int| 0 <= j < old(out)@.len() ==> #[trigger] final(out)@[j] == old(out)@[j],
            subtree_requested(final(out)@, *self, ext@, base@),
        decreases self, 1nat,
    {
        let ghost o0 = out@;
        match self {
            Section::Refer(rel) => {
                let with_ext = with_extension_text(rel.as_str(), ext);
                let q = logical_path_text(with_ext.as_str(), base);
                out.push(Request::Document(q));
                let ghost j = out@.len() - 1;
                assert(out@[j] matches Request::Document(q) && q@ == canonical_path(rel@, ext@, base@));
            },
            Section::Show(input) => match &input.frame {
                ShowType::Path { file, scale, invert } => {
                    out.push(Request::Image { file: file.duplicate(), base: String::from_str(base), scale: *scale, invert: *invert });
                    let ghost j = out@.len() - 1;
                    assert(out@[j] matches Request::Image { file: f, base: b, scale: s, invert: v }
                        && f == *file && b@ == base@ && s == *scale && v == *invert);
                },
                _ => {},
            },
            Section::Sequence(v) => {
                assert forall|i: int| 0 <= i < v@.len() implies decreases_to!(*self => #[trigger] v@[i]) by {
                    assert(decreases_to!(*self => *v));
                    assert(decreases_to!(*v => v@));
                }
                let mut k: usize = 0;
                while k < v.len()
                    invariant
                        k <= v@.len(),
                        out@.len() >= o0.len(),
                        forall|j: int| 0 <= j < o0.len() ==> #[trigger] out@[j] == o0[j],
                        forall|i: int| 0 <= i < k ==> subtree_requested(out@, #[trigger] v@[i], ext@, base@),
                        forall|i: int| 0 <= i < v@.len() ==> decreases_to!(*self => #[trigger] v@[i]),
                    decreases v.len() - k,
                {
                    let ghost o1 = out@;
                    v[k].requests(ext, base, out);
                    proof {
                        assert forall|i: int| 0 <= i < k + 1 implies subtree_requested(out@, #[trigger] v@[i], ext@, base@) by {
                            if i < k {
                                lemma_subtree_grows(o1, out@, v@[i], ext@, base@);
                            }
                        }
                    }
                    k = k + 1;
                }
            },
            Section::Input(sw) => switcher_requests(sw, ext, base, out),
            Section::Switch(sw) => switcher_requests(sw, ext, base, out),
            Section::Branch { then, otherwise, .. } => {
                (**then).requests(ext, base, out);
                match otherwise {
                    Some(o) => {
                        let ghost o1 = out@;
                        (**o).requests(ext, base, out);
                        proof { lemma_subtree_grows(o1, out@, **then, ext@, base@); }
                    },
                    None => {},
                }
            },
            _ => {},
        }
        proof { lemma_subtree_from_children(*self, out@, ext@, base@); }
    }
}

/// A document read for compilation, under its canonical path: its tree or
/// why it could not be read; `None` once compilation has taken it.
pub struct Source {
    pub path: String,
    pub content: Option<Result<Section, CompileError>>,
}

/// The text art made for an image that a `show` names, with how it was made.
pub struct FrameSource {
    pub file: String,
    pub base: String,
    pub scale: u32,
    pub invert: bool,
    pub art: Result<String, CompileError>,
}

/// `f` is the art made for image `file` named from `base`.
pub open spec fn frame_matches(f: FrameSource, file: Seq<char>, base: Seq<char>, scale: u32, invert: bool) -> bool {
    f.file@ == file && f.base@ == base && f.scale == scale && f.invert == invert
}

/// What was read from files for a compilation.
pub struct Sources {
    pub documents: Vec<Source>,
    pub frames: Vec<FrameSource>,
}

/// `j` is the first document not yet taken under `path`.
pub open spec fn first_untaken(docs: Seq<Source>, path: Seq<char>, j: int) -> bool {
    0 <= j < docs.len() && docs[j].path@ == path && docs[j].content is Some
        && forall|i: int| 0 <= i < j && #[trigger] docs[i].path@ == path ==> docs[i].content is None
}

/// The number of documents not yet taken.
pub open spec fn untaken(docs: Seq<Source>) -> nat
    decreases docs.len(),
{
    if docs.len() == 0 {
        0
    } else {
        untaken(docs.drop_last()) + if docs.last().content is Some {
            1nat
        } else {
            0nat
        }
    }
}

proof fn lemma_take(docs: Seq<Source>, i: int, s: Source)
    requires
        0 <= i < docs.len(),
        docs[i].content is Some,
        s.content is None,
    ensures
        untaken(docs.update(i, s)) + 1 == untaken(docs),
    decreases docs.len(),
{
    let u = docs.update(i, s);
    if i < docs.len() - 1 {
        assert(u.drop_last() =~= docs.drop_last().update(i, s));
        lemma_take(docs.drop_last(), i, s);
    } else {
        assert(u.drop_last() =~= docs.drop_last());
    }
}

/// The shared state of a compilation: the notation, the store of compiled
/// documents by canonical path, and the characters.
pub struct InitializerData {
    pub extension: FileFormat,
    pub compiled_refs: Vec<(String, Section)>,
    pub characters: Vec<Character>,
    pub default_character: Character,
}

/// `path` names a document that compilation has taken.
pub open spec fn key_taken(path: Seq<char>, docs: Seq<Source>) -> bool {
    exists|j: int| 0 <= j < docs.len() && #[trigger] docs[j].path@ == path && docs[j].content is None
}

/// Every character of `a` still has its name, at its place, in `b`.
pub open spec fn names_kept(a: Seq<Character>, b: Seq<Character>) -> bool {
    b.len() >= a.len() && forall|i: int| 0 <= i < a.len() ==> (#[trigger] b[i]).name@ == a[i].name@
}

/// `a` has `b`'s name, style and pace.
pub open spec fn same_character(a: Character, b: Character) -> bool {
    a.name@ == b.name@ && a.style.color@ == b.style.color@ && a.style.effects@ == b.style.effects@
        && a.duration == b.duration
}

/// Registering `c` turned `old` into `new`: `c` took the place of the first
/// character of its name, or was added at the end where none had it.
pub open spec fn registered_as(old: Seq<Character>, new: Seq<Character>, c: Character) -> bool {
    ||| exists|i: int| 0 <= i < old.len() && old[i].name@ == c.name@
        && (forall|j: int| 0 <= j < i ==> #[trigger] old[j].name@ != c.name@)
        && new == old.update(i, new[i]) && same_character(new[i], c)
    ||| (forall|j: int| 0 <= j < old.len() ==> #[trigger] old[j].name@ != c.name@)
        && new.len() == old.len() + 1 && new == old.push(new.last()) && same_character(new.last(), c)
}

/// A character is registered under `name`.
pub open spec fn has_name(chars: Seq<Character>, name: Seq<char>) -> bool {
    exists|m: int| 0 <= m < chars.len() && (#[trigger] chars[m]).name@ == name
}


/// The keys of a store.
pub open spec fn store_keys(store: Seq<(String, Section)>) -> Set<Seq<char>> {
    Set::new(|p: Seq<char>| exists|i: int| 0 <= i < store.len() && #[trigger] store[i].0@ == p)
}

/// A tree that compilation has finished: no reference left unresolved, each
/// resolved one naming a path of the store, no image left unread.
pub open spec fn is_compiled(s: Section, keys: Set<Seq<char>>) -> bool
    decreases s,
{
    match s {
        Section::Refer(_) => false,
        Section::PendingCompilation => false,
        Section::ResolvedRefer(p) => keys.contains(p@),
        Section::Sequence(v) => forall|i: int| 0 <= i < v@.len() ==> is_compiled(#[trigger] v@[i], keys),
        Section::Input(sw) => (forall|i: int| 0 <= i < sw.cases@.len() ==> is_compiled(#[trigger] sw.cases@[i].section, keys))
            && (sw.default matches Some(d) ==> is_compiled(*d, keys)),
        Section::Switch(sw) => (forall|i: int| 0 <= i < sw.cases@.len() ==> is_compiled(#[trigger] sw.cases@[i].section, keys))
            && (sw.default matches Some(d) ==> is_compiled(*d, keys)),
        Section::Branch { then, otherwise, .. } => is_compiled(*then, keys)
            && (otherwise matches Some(o) ==> is_compiled(*o, keys)),
        Section::Show(input) => input.frame is Dry,
        _ => true,
    }
}

impl InitializerData {
    /// Each path is stored once, and only once its document was taken from
    /// the sources: a document is read and compiled at most once.
    pub open spec fn wf(&self, sources: &Sources) -> bool {
        &&& forall|i: int, j: int|
            0 <= i < j < self.compiled_refs@.len() ==> #[trigger] self.compiled_refs@[i].0@ != #[trigger] self.compiled_refs@[j].0@
        &&& forall|i: int|
            0 <= i < self.compiled_refs@.len() ==> key_taken(#[trigger] self.compiled_refs@[i].0@, sources.documents@)
    }

    /// Where `path` is stored, if it is.
    pub fn find_compiled(&self, path: &str) -> (r: Option<usize>)
        ensures
            match r {
                Some(i) => i < self.compiled_refs@.len() && self.compiled_refs@[i as int].0@ == path@
                    && forall|j: int| 0 <= j < i ==> self.compiled_refs@[j].0@ != path@,
                None => !store_keys(self.compiled_refs@).contains(path@),
            },
    {
        let mut k: usize = 0;
        while k < self.compiled_refs.len()
            invariant
                k <= self.compiled_refs@.len(),
                forall|i: int| 0 <= i < k ==> self.compiled_refs@[i].0@ != path@,
            decreases self.compiled_refs.len() - k,
        {
            if same_text(self.compiled_refs[k].0.as_str(), path) {
                return Some(k);
            }
            k = k + 1;
        }
        None
    }

    /// Registers a character under its name, replacing one of the same name.
    pub fn register(&mut self, c: Character)
        ensures
            final(self).extension == old(self).extension,
            final(self).compiled_refs == old(self).compiled_refs,
            final(self).default_character == old(self).default_character,
            registered_as(old(self).characters@, final(self).characters@, c),
            names_kept(old(self).characters@, final(self).characters@),
    {
        let mut k: usize = 0;
        while k < self.characters.len()
            invariant
                k <= self.characters@.len(),
                self.extension == old(self).extension,
                self.compiled_refs == old(self).compiled_refs,
                self.default_character == old(self).default_character,
                self.characters == old(self).characters,
                forall|j: int| 0 <= j < k ==> #[trigger] self.characters@[j].name@ != c.name@,
            decreases self.characters.len() - k,
        {
            if same_text(self.characters[k].name.as_str(), c.name.as_str()) {
                let ghost cc = c;
                let ghost before = self.characters@;
                self.characters.set(k, c);
                assert(self.characters@ == before.update(k as int, cc));
                assert(same_character(self.characters@[k as int], cc));
                return;
            }
            k = k + 1;
        }
        let ghost cc = c;
        let ghost before = self.characters@;
        self.characters.push(c);
        assert(self.characters@ == before.push(self.characters@.last()));
        assert(same_character(self.characters@.last(), cc));
    }
}

impl Sources {
    /// Where the untaken document of `path` is, if there is one.
    pub fn find_document(&self, path: &str) -> (r: Option<usize>)
        ensures
            match r {
                Some(i) => first_untaken(self.documents@, path@, i as int),
                None => forall|i: int| 0 <= i < self.documents@.len() && #[trigger] self.documents@[i].path@ == path@
                    ==> self.documents@[i].content is None,
            },
    {
        let mut k: usize = 0;
        while k < self.documents.len()
            invariant
                k <= self.documents@.len(),
                forall|i: int| 0 <= i < k && #[trigger] self.documents@[i].path@ == path@
                    ==> self.documents@[i].content is None,
            decreases self.documents.len() - k,
        {
            if self.documents[k].content.is_some() && same_text(self.documents[k].path.as_str(), path) {
                return Some(k);
            }
            k = k + 1;
        }
        None
    }

    /// The art made for an image `file` named from directory `base`.
    pub fn find_frame(&self, file: &str, base: &str, scale: u32, invert: bool) -> (r: Option<usize>)
        ensures
            match r {
                Some(i) => first_frame(self.frames@, file@, base@, scale, invert, i as int),
                None => forall|i: int| 0 <= i < self.frames@.len() ==> !frame_matches(#[trigger] self.frames@[i], file@, base@, scale, invert),
            },
    {
        let mut k: usize = 0;
        while k < self.frames.len()
            invariant
                k <= self.frames@.len(),
                forall|i: int| 0 <= i < k ==> !frame_matches(#[trigger] self.frames@[i], file@, base@, scale, invert),
            decreases self.frames.len() - k,
        {
            let f = &self.frames[k];
            if f.scale == scale && f.invert == invert && same_text(f.file.as_str(), file) && same_text(f.base.as_str(), base) {
                return Some(k);
            }
            k = k + 1;
        }
        None
    }
}


/// A compiled script: its directory, the shared compilation state, its entry
/// tree and the state it runs in.
pub struct Initializer {
    pub root: String,
    pub data: InitializerData,
    pub entry: Section,
    pub state: RuntimeState,
}

impl Initializer {
    /// Compiles the entry document of the script in directory `root`, read
    /// with its characters, from `root`; every referenced document and image
    /// comes from `sources`. The characters are registered in order, a later
    /// one replacing an earlier one of the same name.
    pub fn new(
        root: String,
        extension: FileFormat,
        characters: Vec<Character>,
        default_character: Option<Character>,
        entry: Section,
        sources: &mut Sources,
    ) -> (r: Result<Initializer, CompileError>)
        ensures
            r matches Ok(i) ==> i.root@ == root@ && i.data.extension == extension
                && is_compiled(i.entry, store_keys(i.data.compiled_refs@)) && i.data.wf(final(sources))
                && i.state.last_in@ == Seq::<char>::empty()
                && compiled_from(entry, i.entry, extension.spec_name(), root@, old(sources).frames@)
                && entries_done(i.data.compiled_refs@, 0)
                && i.data.compiled_refs@.len() == untaken(old(sources).documents@) - untaken(final(sources).documents@)
                && (forall|k: int| 0 <= k < characters@.len() ==> has_name(i.data.characters@, (#[trigger] characters@[k]).name@))
                && (default_character matches Some(c) ==> i.data.default_character == c)
                && (default_character is None ==> i.data.default_character.name@ == "__default__"@
                    && i.data.default_character.duration == Character::spec_default_duration()),
            final(sources).documents@.len() == old(sources).documents@.len(),
            forall|j: int| 0 <= j < old(sources).documents@.len() ==> (#[trigger] final(sources).documents@[j]).path@ == old(sources).documents@[j].path@,
            final(sources).frames == old(sources).frames,
            r matches Err(e) ==> error_from(e, *old(sources)),
            (forall|j: int| 0 <= j < old(sources).documents@.len() ==> ((#[trigger] old(sources).documents@[j]).content matches Some(Ok(t))
                && tree_ready(t, extension.spec_name(), parent_of(old(sources).documents@[j].path@), Set::empty(),
                    old(sources).documents@, old(sources).frames@)))
                && tree_ready(entry, extension.spec_name(), root@, Set::empty(), old(sources).documents@, old(sources).frames@)
                ==> r is Ok,
    {
        let mut data = InitializerData {
            extension,
            compiled_refs: Vec::new(),
            characters: Vec::new(),
            default_character: match default_character {
                Some(c) => c,
                None => Character::default(),
            },
        };
        let ghost given = characters@;
        let ghost dflt = data.default_character;
        let mut rest = characters;
        while rest.len() > 0
            invariant
                data.extension == extension,
                data.compiled_refs@.len() == 0,
                data.default_character == dflt,
                rest@.len() <= given.len(),
                rest@ == given.subrange(given.len() - rest@.len(), given.len() as int),
                forall|k: int| 0 <= k < given.len() - rest@.len() ==> exists|m: int| 0 <= m < data.characters@.len()
                    && (#[trigger] data.characters@[m]).name@ == (#[trigger] given[k]).name@,
            decreases rest@.len(),
        {
            let ghost done = given.len() - rest@.len();
            let ghost before = data.characters@;
            let c = rest.remove(0);
            assert(c == given[done]);
            data.register(c);
            assert forall|k: int| 0 <= k < done + 1 implies exists|m: int| 0 <= m < data.characters@.len()
                && (#[trigger] data.characters@[m]).name@ == (#[trigger] given[k]).name@ by {
                if k < done {
                    let m = choose|m: int| 0 <= m < before.len() && (#[trigger] before[m]).name@ == given[k].name@;
                    assert(data.characters@[m].name@ == before[m].name@);
                }
            }
            assert(rest@ =~= given.subrange(given.len() - rest@.len(), given.len() as int));
        }
        assert(data.wf(sources));
        assert(store_keys(data.compiled_refs@) =~= Set::<Seq<char>>::empty());
        let ghost d0 = data;
        match entry.compile(&mut data, root.as_str(), sources) {
            Ok(e) => {
                assert forall|k: int| 0 <= k < given.len() implies has_name(data.characters@, (#[trigger] given[k]).name@) by {
                    let m = choose|m: int| 0 <= m < d0.characters@.len() && (#[trigger] d0.characters@[m]).name@ == given[k].name@;
                    assert(data.characters@[m].name@ == d0.characters@[m].name@);
                }
                Ok(Initializer { root, data, entry: e, state: RuntimeState::new() })
            },
            Err(e) => Err(e),
        }
    }
}

/// `res` is `orig` compiled in directory `base`: each reference rewritten to
/// the canonical path of its document, each image replaced by text art, each
/// frame of text art positioned, every other node kept as it was.
pub open spec fn compiled_from(orig: Section, res: Section, ext: Seq<char>, base: Seq<char>, frames: Seq<FrameSource>) -> bool
    decreases orig,
{
    match orig {
        Section::Refer(rel) => res is ResolvedRefer && res->ResolvedRefer_0@ == canonical_path(rel@, ext, base),
        Section::Sequence(v) => res is Sequence && res->Sequence_0@.len() == v@.len()
            && forall|i: int| 0 <= i < v@.len() ==> compiled_from(#[trigger] v@[i], res->Sequence_0@[i], ext, base, frames),
        Section::Input(sw) => res is Input && res->Input_0.cases@.len() == sw.cases@.len()
            && (forall|i: int| 0 <= i < sw.cases@.len() ==> compiled_from(#[trigger] sw.cases@[i].section, res->Input_0.cases@[i].section, ext, base, frames)
                && res->Input_0.cases@[i].captures == sw.cases@[i].captures)
            && (res->Input_0.default is Some <==> sw.default is Some)
            && (sw.default matches Some(d) ==> compiled_from(*d, *res->Input_0.default->Some_0, ext, base, frames)),
        Section::Switch(sw) => res is Switch && res->Switch_0.cases@.len() == sw.cases@.len()
            && (forall|i: int| 0 <= i < sw.cases@.len() ==> compiled_from(#[trigger] sw.cases@[i].section, res->Switch_0.cases@[i].section, ext, base, frames)
                && res->Switch_0.cases@[i].captures == sw.cases@[i].captures)
            && (res->Switch_0.default is Some <==> sw.default is Some)
            && (sw.default matches Some(d) ==> compiled_from(*d, *res->Switch_0.default->Some_0, ext, base, frames)),
        Section::Branch { conditions, then, otherwise } => res is Branch && res->conditions == conditions
            && compiled_from(*then, *res->then, ext, base, frames)
            && (res->otherwise is Some <==> otherwise is Some)
            && (otherwise matches Some(o) ==> compiled_from(*o, *res->otherwise->Some_0, ext, base, frames)),
        Section::Show(input) => res is Show && shown_from(input, res->Show_0, base, frames),
        Section::PendingCompilation => res is Sequence && res->Sequence_0@.len() == 0,
        _ => res == orig,
    }
}

/// `i` is the first frame made for image `file` named from `base`.
pub open spec fn first_frame(frames: Seq<FrameSource>, file: Seq<char>, base: Seq<char>, scale: u32, invert: bool, i: int) -> bool {
    0 <= i < frames.len() && frame_matches(frames[i], file, base, scale, invert)
        && forall|j: int| 0 <= j < i ==> !frame_matches(#[trigger] frames[j], file, base, scale, invert)
}

/// `res` is the `show` `orig`, written in directory `base`, with its art
/// positioned: the art it holds, or for an image the art first made for it.
pub open spec fn shown_from(orig: ShowInput, res: ShowInput, base: Seq<char>, frames: Seq<FrameSource>) -> bool {
    &&& res.duration == orig.duration
    &&& res.x == orig.x
    &&& res.y == orig.y
    &&& res.alignment == orig.alignment
    &&& match orig.frame {
        ShowType::Dry(s) => res.frame matches ShowType::Dry(t) && t@ == positioned(s@, orig.x, orig.y),
        ShowType::Path { file, scale, invert } => exists|i: int| first_frame(frames, file.text(), base, scale, invert, i)
            && (frames[i].art matches Ok(a) && res.frame matches ShowType::Dry(t) && t@ == positioned(a@, orig.x, orig.y)),
    }
}

/// Some document read is stored under `path`.
pub open spec fn doc_present(docs: Seq<Source>, path: Seq<char>) -> bool {
    exists|j: int| 0 <= j < docs.len() && #[trigger] docs[j].path@ == path
}

/// Compiling node `n`, written in directory `base`, finds what it reads: the
/// document of a reference read or stored, the art of an image made, the
/// path of a resolved reference stored.
pub open spec fn node_ready(
    n: Section,
    ext: Seq<char>,
    base: Seq<char>,
    keys: Set<Seq<char>>,
    docs: Seq<Source>,
    frames: Seq<FrameSource>,
) -> bool {
    match n {
        Section::Refer(rel) => doc_present(docs, canonical_path(rel@, ext, base)) || keys.contains(canonical_path(rel@, ext, base)),
        Section::ResolvedRefer(p) => keys.contains(p@),
        Section::Show(input) => match input.frame {
            ShowType::Path { file, scale, invert } => (exists|i: int| 0 <= i < frames.len() && frame_matches(#[trigger] frames[i], file.text(), base, scale, invert))
                && forall|i: int| 0 <= i < frames.len() && frame_matches(#[trigger] frames[i], file.text(), base, scale, invert) ==> frames[i].art is Ok,
            _ => true,
        },
        _ => true,
    }
}

/// Every node of tree `t` is ready to compile.
pub open spec fn tree_ready(
    t: Section,
    ext: Seq<char>,
    base: Seq<char>,
    keys: Set<Seq<char>>,
    docs: Seq<Source>,
    frames: Seq<FrameSource>,
) -> bool {
    forall|p: Seq<usize>| (#[trigger] node_at(t, p)) is Some ==> node_ready(node_at(t, p)->Some_0, ext, base, keys, docs, frames)
}

/// Every document not yet compiled was read without error and is ready to
/// compile from its own directory, and every document taken is stored.
pub open spec fn sources_ready(data: InitializerData, sources: Sources) -> bool {
    let keys = store_keys(data.compiled_refs@);
    let docs = sources.documents@;
    &&& forall|j: int| 0 <= j < docs.len() && (#[trigger] docs[j]).content is Some ==> (docs[j].content->Some_0 matches Ok(t)
        && tree_ready(t, data.extension.spec_name(), parent_of(docs[j].path@), keys, docs, sources.frames@))
    &&& forall|j: int| 0 <= j < docs.len() && (#[trigger] docs[j]).content is None ==> keys.contains(docs[j].path@)
}

/// Tree `t`, written in directory `base`, is ready to compile in this state.
pub open spec fn ready(data: InitializerData, sources: Sources, t: Section, base: Seq<char>) -> bool {
    tree_ready(t, data.extension.spec_name(), base, store_keys(data.compiled_refs@), sources.documents@, sources.frames@)
}

proof fn lemma_keys_push(a: Seq<(String, Section)>, b: Seq<(String, Section)>, e: (String, Section))
    requires
        b == a.push(e),
    ensures
        store_keys(b) == store_keys(a).insert(e.0@),
{
    assert forall|p: Seq<char>| store_keys(b).contains(p) <==> store_keys(a).insert(e.0@).contains(p) by {
        if store_keys(b).contains(p) {
            let i = choose|i: int| 0 <= i < b.len() && #[trigger] b[i].0@ == p;
            if i < a.len() {
                assert(a[i].0@ == p);
            }
        }
        if store_keys(a).contains(p) {
            let i = choose|i: int| 0 <= i < a.len() && #[trigger] a[i].0@ == p;
            assert(b[i].0@ == p);
        }
        if p == e.0@ {
            assert(b[a.len() as int].0@ == p);
        }
    }
    assert(store_keys(b) =~= store_keys(a).insert(e.0@));
}

proof fn lemma_sources_ready_same_keys(d0: InitializerData, d1: InitializerData, s: Sources)
    requires
        sources_ready(d0, s),
        store_keys(d1.compiled_refs@) == store_keys(d0.compiled_refs@),
        d1.extension == d0.extension,
    ensures
        sources_ready(d1, s),
{
}

/// Taking document `j` and storing its path keeps the other documents ready.
proof fn lemma_ready_after_take(d0: InitializerData, d1: InitializerData, s0: Sources, s1: Sources, j: int, c: Seq<char>)
    requires
        sources_ready(d0, s0),
        0 <= j < s0.documents@.len(),
        s0.documents@[j].path@ == c,
        s0.documents@[j].content is Some,
        s1.documents@ == s0.documents@.update(j, s1.documents@[j]),
        s1.documents@[j].path@ == c,
        s1.documents@[j].content is None,
        s1.frames == s0.frames,
        store_keys(d1.compiled_refs@) == store_keys(d0.compiled_refs@).insert(c),
        d1.extension == d0.extension,
    ensures
        sources_ready(d1, s1),
        s0.documents@[j].content->Some_0 matches Ok(t) && ready(d1, s1, t, parent_of(c)),
{
    let k0 = store_keys(d0.compiled_refs@);
    let k1 = store_keys(d1.compiled_refs@);
    assert(k0.subset_of(k1));
    let docs0 = s0.documents@;
    let docs1 = s1.documents@;
    assert forall|i: int| 0 <= i < docs0.len() implies (#[trigger] docs1[i]).path@ == docs0[i].path@ by {}
    assert forall|i: int| 0 <= i < docs1.len() && (#[trigger] docs1[i]).content is Some implies (docs1[i].content->Some_0 matches Ok(t)
        && tree_ready(t, d1.extension.spec_name(), parent_of(docs1[i].path@), k1, docs1, s1.frames@)) by {
        assert(i != j);
        assert(docs1[i] == docs0[i]);
        let t = docs0[i].content->Some_0->Ok_0;
        lemma_ready_grows(t, d0.extension.spec_name(), parent_of(docs0[i].path@), k0, k1, docs0, docs1, s0.frames@);
    }
    assert forall|i: int| 0 <= i < docs1.len() && (#[trigger] docs1[i]).content is None implies k1.contains(docs1[i].path@) by {
        if i != j {
            assert(docs1[i] == docs0[i]);
        }
    }
    let t = docs0[j].content->Some_0->Ok_0;
    lemma_ready_grows(t, d0.extension.spec_name(), parent_of(c), k0, k1, docs0, docs1, s0.frames@);
}

/// Readiness survives a compilation step.
proof fn lemma_ready_step(t: Section, base: Seq<char>, d0: InitializerData, d1: InitializerData, s0: Sources, s1: Sources)
    requires
        ready(d0, s0, t, base),
        compile_step(d0, d1, s0, s1),
    ensures
        ready(d1, s1, t, base),
{
    lemma_keys_grow(d0.compiled_refs@, d1.compiled_refs@);
    lemma_ready_grows(t, d0.extension.spec_name(), base, store_keys(d0.compiled_refs@), store_keys(d1.compiled_refs@),
        s0.documents@, s1.documents@, s0.frames@);
}

proof fn lemma_ready_grows(
    t: Section,
    ext: Seq<char>,
    base: Seq<char>,
    k0: Set<Seq<char>>,
    k1: Set<Seq<char>>,
    d0: Seq<Source>,
    d1: Seq<Source>,
    frames: Seq<FrameSource>,
)
    requires
        tree_ready(t, ext, base, k0, d0, frames),
        k0.subset_of(k1),
        d1.len() == d0.len(),
        forall|j: int| 0 <= j < d0.len() ==> (#[trigger] d1[j]).path@ == d0[j].path@,
    ensures
        tree_ready(t, ext, base, k1, d1, frames),
{
    assert forall|p: Seq<usize>| (#[trigger] node_at(t, p)) is Some implies node_ready(node_at(t, p)->Some_0, ext, base, k1, d1, frames) by {
        let n = node_at(t, p)->Some_0;
        assert(node_ready(n, ext, base, k0, d0, frames));
        match n {
            Section::Refer(rel) => {
                let c = canonical_path(rel@, ext, base);
                if doc_present(d0, c) {
                    let j = choose|j: int| 0 <= j < d0.len() && #[trigger] d0[j].path@ == c;
                    assert(d1[j].path@ == c);
                }
            },
            _ => {},
        }
    }
}

proof fn lemma_child_ready(
    n: Section,
    i: int,
    ext: Seq<char>,
    base: Seq<char>,
    keys: Set<Seq<char>>,
    docs: Seq<Source>,
    frames: Seq<FrameSource>,
)
    requires
        tree_ready(n, ext, base, keys, docs, frames),
        0 <= i <= usize::MAX,
        n.child(i) is Some,
    ensures
        tree_ready(n.child(i)->Some_0, ext, base, keys, docs, frames),
{
    let c = n.child(i)->Some_0;
    assert forall|q: Seq<usize>| (#[trigger] node_at(c, q)) is Some implies node_ready(node_at(c, q)->Some_0, ext, base, keys, docs, frames) by {
        lemma_node_at_first(n, i as usize, q);
        assert(node_at(n, seq![i as usize] + q) is Some);
    }
}

proof fn lemma_ready_root(
    n: Section,
    ext: Seq<char>,
    base: Seq<char>,
    keys: Set<Seq<char>>,
    docs: Seq<Source>,
    frames: Seq<FrameSource>,
)
    requires
        tree_ready(n, ext, base, keys, docs, frames),
    ensures
        node_ready(n, ext, base, keys, docs, frames),
{
    assert(node_at(n, Seq::<usize>::empty()) == Some(n));
}

/// Compiling a reference to `c` stored, right after the store it found, the
/// tree of a document read under `c`, compiled from that document's own
/// directory.
pub open spec fn stored_fresh(d0: InitializerData, d1: InitializerData, s0: Sources, c: Seq<char>) -> bool {
    let n = d0.compiled_refs@.len() as int;
    n < d1.compiled_refs@.len() && d1.compiled_refs@[n].0@ == c
        && exists|j: int| 0 <= j < s0.documents@.len() && #[trigger] s0.documents@[j].path@ == c
            && (s0.documents@[j].content matches Some(Ok(t))
                && compiled_from(t, d1.compiled_refs@[n].1, d0.extension.spec_name(), parent_of(c), s0.frames@))
}

/// Every entry of the store from index `from` on holds a finished tree.
pub open spec fn entries_done(store: Seq<(String, Section)>, from: int) -> bool {
    forall|k: int| from <= k < store.len() ==> is_compiled(#[trigger] store[k].1, store_keys(store))
}

/// A successful compilation step stored one finished document for each
/// document it took, and nothing else.
pub open spec fn grew(d0: InitializerData, d1: InitializerData, s0: Sources, s1: Sources) -> bool {
    &&& entries_done(d1.compiled_refs@, d0.compiled_refs@.len() as int)
    &&& d1.compiled_refs@.len() - d0.compiled_refs@.len() == untaken(s0.documents@) - untaken(s1.documents@)
}

proof fn lemma_grew_trans(d0: InitializerData, d1: InitializerData, d2: InitializerData, s0: Sources, s1: Sources, s2: Sources)
    requires
        grew(d0, d1, s0, s1),
        grew(d1, d2, s1, s2),
        compile_step(d1, d2, s1, s2),
        d1.compiled_refs@.len() >= d0.compiled_refs@.len(),
    ensures
        grew(d0, d2, s0, s2),
{
    let a = d1.compiled_refs@;
    let b = d2.compiled_refs@;
    lemma_keys_grow(a, b);
    assert forall|k: int| d0.compiled_refs@.len() <= k < b.len() implies is_compiled(#[trigger] b[k].1, store_keys(b)) by {
        if k < a.len() {
            assert(b[k] == a[k]);
            lemma_compiled_grows(a[k].1, store_keys(a), store_keys(b));
        }
    }
}


/// The relation between the state before and after compiling a subtree: the
/// notation is kept, stored documents stay as they were, the store stays
/// well formed, and a document once taken stays taken.
pub open spec fn compile_step(d0: InitializerData, d1: InitializerData, s0: Sources, s1: Sources) -> bool {
    &&& d1.extension == d0.extension
    &&& d1.compiled_refs@.len() >= d0.compiled_refs@.len()
    &&& forall|i: int| 0 <= i < d0.compiled_refs@.len() ==> #[trigger] d1.compiled_refs@[i] == d0.compiled_refs@[i]
    &&& d1.wf(&s1)
    &&& s1.documents@.len() == s0.documents@.len()
    &&& forall|j: int| 0 <= j < s0.documents@.len() ==> (#[trigger] s1.documents@[j]).path@ == s0.documents@[j].path@
        && (s0.documents@[j].content is None ==> s1.documents@[j].content is None)
    &&& untaken(s1.documents@) <= untaken(s0.documents@)
    &&& s1.frames == s0.frames
    &&& names_kept(d0.characters@, d1.characters@)
    &&& d1.default_character == d0.default_character
    &&& forall|j: int| 0 <= j < s1.documents@.len() && (#[trigger] s1.documents@[j]).content is Some ==> s1.documents@[j] == s0.documents@[j]
}

/// `e` is an error that compiling with `sources` may return: an invalid
/// path, or the error a document or an image was read with.
pub open spec fn error_from(e: CompileError, sources: Sources) -> bool {
    ||| e is InvalidPath
    ||| exists|j: int| 0 <= j < sources.documents@.len() && (#[trigger] sources.documents@[j]).content == Some(Err::<Section, CompileError>(e))
    ||| exists|i: int| 0 <= i < sources.frames@.len() && (#[trigger] sources.frames@[i]).art == Err::<String, CompileError>(e)
}


proof fn lemma_keys_grow(a: Seq<(String, Section)>, b: Seq<(String, Section)>)
    requires
        b.len() >= a.len(),
        forall|i: int| 0 <= i < a.len() ==> #[trigger] b[i] == a[i],
    ensures
        store_keys(a).subset_of(store_keys(b)),
{
    assert forall|p: Seq<char>| store_keys(a).contains(p) implies store_keys(b).contains(p) by {
        let i = choose|i: int| 0 <= i < a.len() && #[trigger] a[i].0@ == p;
        assert(b[i].0@ == p);
    }
}

/// A finished tree stays finished as the store grows.
pub proof fn lemma_compiled_grows(s: Section, k1: Set<Seq<char>>, k2: Set<Seq<char>>)
    requires
        is_compiled(s, k1),
        k1.subset_of(k2),
    ensures
        is_compiled(s, k2),
    decreases s,
{
    match s {
        Section::Sequence(v) => {
            assert forall|i: int| 0 <= i < v@.len() implies is_compiled(#[trigger] v@[i], k2) by {
                lemma_compiled_grows(v@[i], k1, k2);
            }
        },
        Section::Input(sw) => {
            assert forall|i: int| 0 <= i < sw.cases@.len() implies is_compiled(#[trigger] sw.cases@[i].section, k2) by {
                lemma_compiled_grows(sw.cases@[i].section, k1, k2);
            }
            if let Some(d) = sw.default {
                lemma_compiled_grows(*d, k1, k2);
            }
        },
        Section::Switch(sw) => {
            assert forall|i: int| 0 <= i < sw.cases@.len() implies is_compiled(#[trigger] sw.cases@[i].section, k2) by {
                lemma_compiled_grows(sw.cases@[i].section, k1, k2);
            }
            if let Some(d) = sw.default {
                lemma_compiled_grows(*d, k1, k2);
            }
        },
        Section::Branch { then, otherwise, .. } => {
            lemma_compiled_grows(*then, k1, k2);
            if let Some(o) = otherwise {
                lemma_compiled_grows(*o, k1, k2);
            }
        },
        _ => {},
    }
}

proof fn lemma_wf_same_store(d0: InitializerData, d1: InitializerData, s: Sources)
    requires
        d0.wf(&s),
        d1.compiled_refs == d0.compiled_refs,
    ensures
        d1.wf(&s),
{
    assert forall|i: int| 0 <= i < d1.compiled_refs@.len() implies key_taken(#[trigger] d1.compiled_refs@[i].0@, s.documents@) by {
        assert(d1.compiled_refs@[i] == d0.compiled_refs@[i]);
    }
}

proof fn lemma_wf_take(d: InitializerData, s0: Sources, s1: Sources, j: int)
    requires
        d.wf(&s0),
        0 <= j < s0.documents@.len(),
        s1.documents@.len() == s0.documents@.len(),
        s1.documents@[j].path@ == s0.documents@[j].path@,
        s1.documents@[j].content is None,
        forall|k: int| 0 <= k < s0.documents@.len() && k != j ==> #[trigger] s1.documents@[k] == s0.documents@[k],
    ensures
        d.wf(&s1),
{
    assert forall|i: int| 0 <= i < d.compiled_refs@.len() implies key_taken(#[trigger] d.compiled_refs@[i].0@, s1.documents@) by {
        assert(key_taken(d.compiled_refs@[i].0@, s0.documents@));
        let k = choose|k: int| 0 <= k < s0.documents@.len() && #[trigger] s0.documents@[k].path@ == d.compiled_refs@[i].0@
            && s0.documents@[k].content is None;
        if k == j {
            assert(s1.documents@[j].path@ == d.compiled_refs@[i].0@);
        } else {
            assert(s1.documents@[k] == s0.documents@[k]);
            assert(s1.documents@[k].path@ == d.compiled_refs@[i].0@);
        }
    }
}

proof fn lemma_wf_push(d0: InitializerData, d1: InitializerData, s: Sources, entry: (String, Section), j: int)
    requires
        d0.wf(&s),
        !store_keys(d0.compiled_refs@).contains(entry.0@),
        d1.compiled_refs@ == d0.compiled_refs@.push(entry),
        0 <= j < s.documents@.len(),
        s.documents@[j].path@ == entry.0@,
        s.documents@[j].content is None,
    ensures
        d1.wf(&s),
{
    let n = d0.compiled_refs@.len() as int;
    assert forall|a: int, b: int| 0 <= a < b < d1.compiled_refs@.len() implies #[trigger] d1.compiled_refs@[a].0@ != #[trigger] d1.compiled_refs@[b].0@ by {
        if b == n {
            assert(d0.compiled_refs@[a].0@ == d1.compiled_refs@[a].0@);
            if d1.compiled_refs@[a].0@ == entry.0@ {
                assert(store_keys(d0.compiled_refs@).contains(entry.0@));
            }
        } else {
            assert(d1.compiled_refs@[a] == d0.compiled_refs@[a]);
            assert(d1.compiled_refs@[b] == d0.compiled_refs@[b]);
        }
    }
    assert forall|i: int| 0 <= i < d1.compiled_refs@.len() implies key_taken(#[trigger] d1.compiled_refs@[i].0@, s.documents@) by {
        if i == n {
            assert(s.documents@[j].path@ == d1.compiled_refs@[i].0@);
        } else {
            assert(d1.compiled_refs@[i] == d0.compiled_refs@[i]);
        }
    }
}

proof fn lemma_wf_set(d0: InitializerData, d1: InitializerData, s: Sources, idx: int, entry: (String, Section))
    requires
        d0.wf(&s),
        0 <= idx < d0.compiled_refs@.len(),
        d0.compiled_refs@[idx].0@ == entry.0@,
        d1.compiled_refs@ == d0.compiled_refs@.update(idx, entry),
    ensures
        d1.wf(&s),
        store_keys(d1.compiled_refs@) == store_keys(d0.compiled_refs@),
{
    assert forall|a: int, b: int| 0 <= a < b < d1.compiled_refs@.len() implies #[trigger] d1.compiled_refs@[a].0@ != #[trigger] d1.compiled_refs@[b].0@ by {
        assert(d0.compiled_refs@[a].0@ != d0.compiled_refs@[b].0@);
    }
    assert forall|i: int| 0 <= i < d1.compiled_refs@.len() implies key_taken(#[trigger] d1.compiled_refs@[i].0@, s.documents@) by {
        assert(d1.compiled_refs@[i].0@ == d0.compiled_refs@[i].0@);
    }
    assert forall|p: Seq<char>| store_keys(d1.compiled_refs@).contains(p) <==> store_keys(d0.compiled_refs@).contains(p) by {
        if store_keys(d1.compiled_refs@).contains(p) {
            let i = choose|i: int| 0 <= i < d1.compiled_refs@.len() && #[trigger] d1.compiled_refs@[i].0@ == p;
            assert(d0.compiled_refs@[i].0@ == p);
        }
        if store_keys(d0.compiled_refs@).contains(p) {
            let i = choose|i: int| 0 <= i < d0.compiled_refs@.len() && #[trigger] d0.compiled_refs@[i].0@ == p;
            assert(d1.compiled_refs@[i].0@ == p);
        }
    }
    assert(store_keys(d1.compiled_refs@) =~= store_keys(d0.compiled_refs@));
}

impl Section {
    /// Compiles the tree of a document in directory `base`: registers its
    /// characters, reads its images from the frames made for them, and
    /// resolves each reference to the canonical path of its document. A
    /// document met for the first time is stored as pending before it is
    /// compiled, from its own directory, so a reference back to it (a cycle)
    /// finds it stored and is not compiled again. Stops at the first error.
    pub fn compile(self, data: &mut InitializerData, base: &str, sources: &mut Sources) -> (r: Result<Section, CompileError>)
        requires
            old(data).wf(old(sources)),
        ensures
            compile_step(*old(data), *final(data), *old(sources), *final(sources)),
            r matches Ok(s) ==> is_compiled(s, store_keys(final(data).compiled_refs@))
                && compiled_from(self, s, old(data).extension.spec_name(), base@, old(sources).frames@),
            sources_ready(*old(data), *old(sources)) && ready(*old(data), *old(sources), self, base@)
                ==> r is Ok && sources_ready(*final(data), *final(sources)),
            r is Ok ==> grew(*old(data), *final(data), *old(sources), *final(sources)),
            r matches Err(e) ==> error_from(e, *old(sources)),
            self matches Section::CharacterDef(c) ==> registered_as(old(data).characters@, final(data).characters@, c)
                && final(data).compiled_refs == old(data).compiled_refs && *final(sources) == *old(sources),
            is_compiled(self, store_keys(old(data).compiled_refs@)) ==> r is Ok
                && final(data).compiled_refs == old(data).compiled_refs && *final(sources) == *old(sources),
            self is Refer && store_keys(old(data).compiled_refs@).contains(canonical_path(self->Refer_0@, old(data).extension.spec_name(), base@))
                ==> (r matches Ok(Section::ResolvedRefer(p)) && p@ == canonical_path(self->Refer_0@, old(data).extension.spec_name(), base@))
                    && *final(data) == *old(data) && *final(sources) == *old(sources),
            self is Refer && r is Ok && !store_keys(old(data).compiled_refs@).contains(canonical_path(self->Refer_0@, old(data).extension.spec_name(), base@))
                ==> stored_fresh(*old(data), *final(data), *old(sources), canonical_path(self->Refer_0@, old(data).extension.spec_name(), base@)),
            self is Refer && !store_keys(old(data).compiled_refs@).contains(canonical_path(self->Refer_0@, old(data).extension.spec_name(), base@))
                && !doc_present(old(sources).documents@, canonical_path(self->Refer_0@, old(data).extension.spec_name(), base@))
                ==> (r matches Err(CompileError::InvalidPath(p)) && p@ == canonical_path(self->Refer_0@, old(data).extension.spec_name(), base@)),
            self is Show && self->Show_0.frame is Path
                && (forall|i: int| 0 <= i < old(sources).frames@.len() ==> !frame_matches(#[trigger] old(sources).frames@[i],
                    self->Show_0.frame->file.text(), base@, self->Show_0.frame->scale, self->Show_0.frame->invert))
                ==> (r matches Err(CompileError::InvalidPath(p)) && p@ == self->Show_0.frame->file.text()),
            forall|i: int| self is Show && self->Show_0.frame is Path
                && first_frame(old(sources).frames@, self->Show_0.frame->file.text(), base@, self->Show_0.frame->scale, self->Show_0.frame->invert, i)
                && (#[trigger] old(sources).frames@[i]).art is Err ==> r == Err::<Section, CompileError>(old(sources).frames@[i].art->Err_0),
        decreases untaken(sources.documents@), self, 1nat,
    {
        let ghost entry = self;
        let ghost idem = is_compiled(self, store_keys(old(data).compiled_refs@));
        let ghost pre = sources_ready(*old(data), *old(sources)) && ready(*old(data), *old(sources), self, base@);
        proof {
            if pre {
                lemma_ready_root(self, data.extension.spec_name(), base@, store_keys(data.compiled_refs@), sources.documents@, sources.frames@);
            }
        }
        match self {
            Section::CharacterDef(c) => {
                let dup = c.duplicate();
                data.register(dup);
                proof { lemma_wf_same_store(*old(data), *data, *sources); }
                Ok(Section::CharacterDef(c))
            },
            Section::Refer(rel) => compile_refer(rel, data, base, sources),
            Section::Sequence(v) => {
                let ghost orig = v@;
                assert forall|i: int| 0 <= i < orig.len() implies decreases_to!(entry => #[trigger] orig[i]) by {
                    assert(decreases_to!(entry => v));
                    assert(decreases_to!(v => v@));
                    assert(decreases_to!(v@ => v@[i]));
                }
                proof {
                    if pre {
                        assert forall|i: int| 0 <= i < orig.len() implies ready(*data, *sources, #[trigger] orig[i], base@) by {
                            lemma_child_ready(entry, i, data.extension.spec_name(), base@, store_keys(data.compiled_refs@), sources.documents@, sources.frames@);
                        }
                    }
                }
                let mut rest = v;
                let mut out: Vec<Section> = Vec::new();
                while rest.len() > 0
                    invariant
                        out@.len() + rest@.len() == orig.len(),
                        rest@ == orig.subrange(out@.len() as int, orig.len() as int),
                        forall|i: int| 0 <= i < orig.len() ==> decreases_to!(entry => #[trigger] orig[i]),
                        entry == self,
                        compile_step(*old(data), *data, *old(sources), *sources),
                        forall|i: int| 0 <= i < out@.len() ==> is_compiled(#[trigger] out@[i], store_keys(data.compiled_refs@)),
                        forall|i: int| 0 <= i < out@.len() ==> compiled_from(orig[i], #[trigger] out@[i], old(data).extension.spec_name(), base@, old(sources).frames@),
                        pre ==> sources_ready(*data, *sources),
                        pre ==> forall|i: int| out@.len() <= i < orig.len() ==> ready(*data, *sources, #[trigger] orig[i], base@),
                        pre == (sources_ready(*old(data), *old(sources)) && ready(*old(data), *old(sources), entry, base@)),
                        grew(*old(data), *data, *old(sources), *sources),
                        entry is Sequence,
                        idem == is_compiled(entry, store_keys(old(data).compiled_refs@)),
                        idem ==> data.compiled_refs == old(data).compiled_refs && *sources == *old(sources),
                        idem ==> forall|i: int| 0 <= i < orig.len() ==> is_compiled(#[trigger] orig[i], store_keys(old(data).compiled_refs@)),
                    decreases rest@.len(),
                {
                    let c = rest.remove(0);
                    assert(c == orig[out@.len() as int]);
                    assert(decreases_to!(entry => c));
                    assert(untaken(sources.documents@) <= untaken(old(sources).documents@));
                    let ghost d0 = *data;
                    let ghost s0 = *sources;
                    assert(pre ==> ready(*data, *sources, c, base@));
                    assert(pre ==> sources_ready(*data, *sources));
                    match c.compile(data, base, sources) {
                        Ok(x) => {
                            proof {
                                if pre {
                                    assert forall|i: int| out@.len() + 1 <= i < orig.len() implies ready(*data, *sources, #[trigger] orig[i], base@) by {
                                        lemma_ready_step(orig[i], base@, d0, *data, s0, *sources);
                                    }
                                }
                                lemma_keys_grow(d0.compiled_refs@, data.compiled_refs@);
                                assert forall|i: int| 0 <= i < out@.len() implies is_compiled(#[trigger] out@[i], store_keys(data.compiled_refs@)) by {
                                    lemma_compiled_grows(out@[i], store_keys(d0.compiled_refs@), store_keys(data.compiled_refs@));
                                }
                            }
                            proof { lemma_grew_trans(*old(data), d0, *data, *old(sources), s0, *sources); }
                            out.push(x);
                            assert(rest@ =~= orig.subrange(out@.len() as int, orig.len() as int));
                        },
                        Err(e) => {
                            return Err(e);
                        },
                    }
                }
                let r = Section::Sequence(out);
                assert(compiled_from(entry, r, old(data).extension.spec_name(), base@, old(sources).frames@));
                Ok(r)
            },
            Section::Input(sw) => {
                assert(decreases_to!(entry => sw));
                proof {
                    if pre {
                        assert(sw.cases@.len() == sw.cases.len());
                        assert forall|i: int| 0 <= i < sw.cases@.len() implies ready(*data, *sources, #[trigger] sw.cases@[i].section, base@) by {
                            lemma_child_ready(entry, i, data.extension.spec_name(), base@, store_keys(data.compiled_refs@), sources.documents@, sources.frames@);
                        }
                        if sw.default is Some {
                            lemma_child_ready(entry, sw.cases@.len() as int, data.extension.spec_name(), base@, store_keys(data.compiled_refs@), sources.documents@, sources.frames@);
                        }
                    }
                }
                match compile_switcher(sw, data, base, sources) {
                    Ok(sw) => Ok(Section::Input(sw)),
                    Err(e) => Err(e),
                }
            },
            Section::Switch(sw) => {
                assert(decreases_to!(entry => sw));
                proof {
                    if pre {
                        assert(sw.cases@.len() == sw.cases.len());
                        assert forall|i: int| 0 <= i < sw.cases@.len() implies ready(*data, *sources, #[trigger] sw.cases@[i].section, base@) by {
                            lemma_child_ready(entry, i, data.extension.spec_name(), base@, store_keys(data.compiled_refs@), sources.documents@, sources.frames@);
                        }
                        if sw.default is Some {
                            lemma_child_ready(entry, sw.cases@.len() as int, data.extension.spec_name(), base@, store_keys(data.compiled_refs@), sources.documents@, sources.frames@);
                        }
                    }
                }
                match compile_switcher(sw, data, base, sources) {
                    Ok(sw) => Ok(Section::Switch(sw)),
                    Err(e) => Err(e),
                }
            },
            Section::Branch { conditions, then, otherwise } => {
                assert(decreases_to!(entry => *then));
                let ghost d0 = *data;
                let ghost s0 = *sources;
                proof {
                    if pre {
                        assert(entry.child(0) == Some(*then));
                        lemma_child_ready(entry, 0, data.extension.spec_name(), base@, store_keys(data.compiled_refs@), sources.documents@, sources.frames@);
                        if otherwise is Some {
                            assert(entry.child(1) == Some(*otherwise->Some_0));
                            lemma_child_ready(entry, 1, data.extension.spec_name(), base@, store_keys(data.compiled_refs@), sources.documents@, sources.frames@);
                        }
                    }
                }
                let then = match (*then).compile(data, base, sources) {
                    Ok(t) => {
                        proof { lemma_grew_trans(*old(data), d0, *data, *old(sources), s0, *sources); }
                        t
                    },
                    Err(e) => {
                        return Err(e);
                    },
                };
                let otherwise = match otherwise {
                    Some(o) => {
                        assert(decreases_to!(entry => *o));
                        assert(untaken(sources.documents@) <= untaken(old(sources).documents@));
                        proof {
                            if pre {
                                lemma_ready_step(*o, base@, d0, *data, s0, *sources);
                            }
                        }
                        let ghost d1 = *data;
                        let ghost s1 = *sources;
                        match (*o).compile(data, base, sources) {
                            Ok(x) => {
                                proof {
                                    lemma_grew_trans(*old(data), d1, *data, *old(sources), s1, *sources);
                                    lemma_keys_grow(d1.compiled_refs@, data.compiled_refs@);
                                    lemma_compiled_grows(then, store_keys(d1.compiled_refs@), store_keys(data.compiled_refs@));
                                }
                                Some(Box::new(x))
                            },
                            Err(e) => {
                                return Err(e);
                            },
                        }
                    },
                    None => None,
                };
                Ok(Section::Branch { conditions, then: Box::new(then), otherwise })
            },
            Section::Show(input) => match compile_show(input, base, &*sources, Ghost(data.extension.spec_name()), Ghost(store_keys(data.compiled_refs@))) {
                Ok(i) => Ok(Section::Show(i)),
                Err(e) => Err(e),
            },
            Section::Clear => Ok(Section::Clear),
            Section::Dialog(t) => Ok(Section::Dialog(t)),
            Section::Text(t) => Ok(Section::Text(t)),
            Section::Title(t) => Ok(Section::Title(t)),
            Section::Print(t) => Ok(Section::Print(t)),
            Section::Wait(n) => Ok(Section::Wait(n)),
            Section::ResolvedRefer(p) => match data.find_compiled(p.as_str()) {
                Some(_) => Ok(Section::ResolvedRefer(p)),
                None => Err(CompileError::InvalidPath(p)),
            },
            Section::PendingCompilation => Ok(Section::Sequence(Vec::new())),
            Section::Let(e) => Ok(Section::Let(e)),
        }
    }
}

/// Compiles the bodies of a switcher's cases, then its default.
fn compile_switcher<C>(sw: Switcher<C>, data: &mut InitializerData, base: &str, sources: &mut Sources) -> (r: Result<Switcher<C>, CompileError>)
    requires
        old(data).wf(old(sources)),
    ensures
        compile_step(*old(data), *final(data), *old(sources), *final(sources)),
        r matches Ok(s) ==> (forall|i: int| 0 <= i < s.cases@.len() ==> is_compiled(#[trigger] s.cases@[i].section, store_keys(final(data).compiled_refs@)))
            && (s.default matches Some(d) ==> is_compiled(*d, store_keys(final(data).compiled_refs@)))
            && s.cases@.len() == sw.cases@.len()
            && (forall|i: int| 0 <= i < sw.cases@.len() ==> compiled_from(#[trigger] sw.cases@[i].section, s.cases@[i].section, old(data).extension.spec_name(), base@, old(sources).frames@)
                && s.cases@[i].captures == sw.cases@[i].captures)
            && (s.default is Some <==> sw.default is Some)
            && (sw.default matches Some(d) ==> compiled_from(*d, *s.default->Some_0, old(data).extension.spec_name(), base@, old(sources).frames@)),
        sources_ready(*old(data), *old(sources))
            && (forall|i: int| 0 <= i < sw.cases@.len() ==> ready(*old(data), *old(sources), #[trigger] sw.cases@[i].section, base@))
            && (sw.default matches Some(d) ==> ready(*old(data), *old(sources), *d, base@))
            ==> r is Ok && sources_ready(*final(data), *final(sources)),
        r is Ok ==> grew(*old(data), *final(data), *old(sources), *final(sources)),
        r matches Err(e) ==> error_from(e, *old(sources)),
        (forall|i: int| 0 <= i < sw.cases@.len() ==> is_compiled(#[trigger] sw.cases@[i].section, store_keys(old(data).compiled_refs@)))
            && (sw.default matches Some(d) ==> is_compiled(*d, store_keys(old(data).compiled_refs@)))
            ==> r is Ok && final(data).compiled_refs == old(data).compiled_refs && *final(sources) == *old(sources),
    decreases untaken(sources.documents@), sw, 1nat,
{
    let ghost entry = sw;
    let ghost idem = (forall|i: int| 0 <= i < entry.cases@.len() ==> is_compiled(#[trigger] entry.cases@[i].section, store_keys(old(data).compiled_refs@)))
        && (entry.default matches Some(d) ==> is_compiled(*d, store_keys(old(data).compiled_refs@)));
    let ghost pre = sources_ready(*old(data), *old(sources))
        && (forall|i: int| 0 <= i < entry.cases@.len() ==> ready(*old(data), *old(sources), #[trigger] entry.cases@[i].section, base@))
        && (entry.default matches Some(d) ==> ready(*old(data), *old(sources), *d, base@));
    let Switcher { default, cases } = sw;
    let ghost orig = cases@;
    assert forall|i: int| 0 <= i < orig.len() implies decreases_to!(entry => #[trigger] orig[i].section) by {
        assert(decreases_to!(entry => cases));
        assert(decreases_to!(cases => cases@));
        assert(decreases_to!(cases@ => cases@[i]));
        assert(decreases_to!(cases@[i] => cases@[i].section));
    }
    let mut rest = cases;
    let mut out: Vec<Case<C>> = Vec::new();
    while rest.len() > 0
        invariant
            out@.len() + rest@.len() == orig.len(),
            rest@ == orig.subrange(out@.len() as int, orig.len() as int),
            forall|i: int| 0 <= i < orig.len() ==> decreases_to!(entry => #[trigger] orig[i].section),
            entry == sw,
            compile_step(*old(data), *data, *old(sources), *sources),
            forall|i: int| 0 <= i < out@.len() ==> is_compiled(#[trigger] out@[i].section, store_keys(data.compiled_refs@)),
            forall|i: int| 0 <= i < out@.len() ==> compiled_from(orig[i].section, #[trigger] out@[i].section, old(data).extension.spec_name(), base@, old(sources).frames@)
                && out@[i].captures == orig[i].captures,
            pre ==> sources_ready(*data, *sources),
            pre ==> forall|i: int| out@.len() <= i < orig.len() ==> ready(*data, *sources, #[trigger] orig[i].section, base@),
            pre ==> (entry.default matches Some(d) ==> ready(*data, *sources, *d, base@)),
            entry.default == default,
            entry.cases@ == orig,
            pre == (sources_ready(*old(data), *old(sources))
                && (forall|i: int| 0 <= i < entry.cases@.len() ==> ready(*old(data), *old(sources), #[trigger] entry.cases@[i].section, base@))
                && (entry.default matches Some(d) ==> ready(*old(data), *old(sources), *d, base@))),
            grew(*old(data), *data, *old(sources), *sources),
            idem == ((forall|i: int| 0 <= i < entry.cases@.len() ==> is_compiled(#[trigger] entry.cases@[i].section, store_keys(old(data).compiled_refs@)))
                && (entry.default matches Some(d) ==> is_compiled(*d, store_keys(old(data).compiled_refs@)))),
            idem ==> data.compiled_refs == old(data).compiled_refs && *sources == *old(sources),
        decreases rest@.len(),
    {
        let c = rest.remove(0);
        assert(c == orig[out@.len() as int]);
        assert(decreases_to!(entry => c.section));
        assert(untaken(sources.documents@) <= untaken(old(sources).documents@));
        let ghost cc = c;
        assert(pre ==> ready(*data, *sources, c.section, base@));
        assert(idem ==> is_compiled(entry.cases@[out@.len() as int].section, store_keys(old(data).compiled_refs@)));
        assert(idem ==> is_compiled(c.section, store_keys(data.compiled_refs@)));
        let Case { section, captures } = c;
        let ghost d0 = *data;
        let ghost s0 = *sources;
        match section.compile(data, base, sources) {
            Ok(x) => {
                proof {
                    if pre {
                        assert forall|i: int| out@.len() + 1 <= i < orig.len() implies ready(*data, *sources, #[trigger] orig[i].section, base@) by {
                            lemma_ready_step(orig[i].section, base@, d0, *data, s0, *sources);
                        }
                        if let Some(d) = entry.default {
                            lemma_ready_step(*d, base@, d0, *data, s0, *sources);
                        }
                    }
                    lemma_keys_grow(d0.compiled_refs@, data.compiled_refs@);
                    assert forall|i: int| 0 <= i < out@.len() implies is_compiled(#[trigger] out@[i].section, store_keys(data.compiled_refs@)) by {
                        lemma_compiled_grows(out@[i].section, store_keys(d0.compiled_refs@), store_keys(data.compiled_refs@));
                    }
                }
                proof { lemma_grew_trans(*old(data), d0, *data, *old(sources), s0, *sources); }
                out.push(Case { section: x, captures });
                assert(rest@ =~= orig.subrange(out@.len() as int, orig.len() as int));
            },
            Err(e) => {
                return Err(e);
            },
        }
    }
    let default = match default {
        Some(d) => {
            assert(decreases_to!(entry => *d));
            assert(pre ==> ready(*data, *sources, *d, base@));
            assert(idem ==> is_compiled(*d, store_keys(data.compiled_refs@)));
            assert(untaken(sources.documents@) <= untaken(old(sources).documents@));
            let ghost d1 = *data;
            let ghost s1 = *sources;
            match (*d).compile(data, base, sources) {
                Ok(x) => {
                    proof {
                        lemma_grew_trans(*old(data), d1, *data, *old(sources), s1, *sources);
                        lemma_keys_grow(d1.compiled_refs@, data.compiled_refs@);
                        assert forall|i: int| 0 <= i < out@.len() implies is_compiled(#[trigger] out@[i].section, store_keys(data.compiled_refs@)) by {
                            lemma_compiled_grows(out@[i].section, store_keys(d1.compiled_refs@), store_keys(data.compiled_refs@));
                        }
                    }
                    Some(Box::new(x))
                },
                Err(e) => {
                    return Err(e);
                },
            }
        },
        None => None,
    };
    Ok(Switcher { default, cases: out })
}

/// Replaces a `show`'s image by the text art made for it, then positions the art.
fn compile_show(input: ShowInput, base: &str, sources: &Sources, ext: Ghost<Seq<char>>, keys: Ghost<Set<Seq<char>>>) -> (r: Result<ShowInput, CompileError>)
    ensures
        r matches Ok(i) ==> shown_from(input, i, base@, sources.frames@),
        r matches Err(e) ==> error_from(e, *sources),
        node_ready(Section::Show(input), ext@, base@, keys@, sources.documents@, sources.frames@) ==> r is Ok,
        input.frame is Path
            && (forall|i: int| 0 <= i < sources.frames@.len() ==> !frame_matches(#[trigger] sources.frames@[i],
                input.frame->file.text(), base@, input.frame->scale, input.frame->invert))
            ==> (r matches Err(CompileError::InvalidPath(p)) && p@ == input.frame->file.text()),
        forall|i: int| input.frame is Path && first_frame(sources.frames@, input.frame->file.text(), base@, input.frame->scale, input.frame->invert, i)
            && (#[trigger] sources.frames@[i]).art is Err ==> r == Err::<ShowInput, CompileError>(sources.frames@[i].art->Err_0),
{
    let ShowInput { frame, duration, x, y, alignment } = input;
    let mut frame = match frame {
        ShowType::Dry(s) => ShowType::Dry(s),
        ShowType::Path { file, scale, invert } => {
            let f = file.as_absolute();
            match sources.find_frame(f.as_str(), base, scale, invert) {
                Some(i) => match &sources.frames[i].art {
                    Ok(a) => ShowType::Dry(a.clone()),
                    Err(e) => {
                        return Err(e.duplicate());
                    },
                },
                None => {
                    return Err(CompileError::InvalidPath(f));
                },
            }
        },
    };
    frame.position(x, y);
    Ok(ShowInput { frame, duration, x, y, alignment })
}

/// A store built by compilation holds each path once, and only paths whose
/// document was taken from the sources, which hand out each document once:
/// every document is read and compiled at most once, however many
/// references name it.
pub proof fn lemma_documents_compiled_once(data: InitializerData, sources: Sources)
    requires
        data.wf(&sources),
    ensures
        forall|i: int, j: int| 0 <= i < data.compiled_refs@.len() && 0 <= j < data.compiled_refs@.len()
            && #[trigger] data.compiled_refs@[i].0@ == #[trigger] data.compiled_refs@[j].0@ ==> i == j,
        forall|i: int| 0 <= i < data.compiled_refs@.len() ==> key_taken(#[trigger] data.compiled_refs@[i].0@, sources.documents@),
{
    assert forall|i: int, j: int| 0 <= i < data.compiled_refs@.len() && 0 <= j < data.compiled_refs@.len()
        && #[trigger] data.compiled_refs@[i].0@ == #[trigger] data.compiled_refs@[j].0@ implies i == j by {
        if i < j {
            assert(data.compiled_refs@[i].0@ != data.compiled_refs@[j].0@);
        } else if j < i {
            assert(data.compiled_refs@[j].0@ != data.compiled_refs@[i].0@);
        }
    }
}

/// Resolves a reference written in directory `base` to the canonical path
/// of its document: the same path from every parent that names the same
/// file the same way. A document not yet stored is taken from the sources,
/// stored as pending, compiled from its own directory, then stored.
pub fn compile_refer(rel: String, data: &mut InitializerData, base: &str, sources: &mut Sources) -> (r: Result<Section, CompileError>)
    requires
        old(data).wf(old(sources)),
    ensures
        compile_step(*old(data), *final(data), *old(sources), *final(sources)),
        r matches Ok(s) ==> s == Section::ResolvedRefer(s->ResolvedRefer_0)
            && s->ResolvedRefer_0@ == canonical_path(rel@, old(data).extension.spec_name(), base@)
            && store_keys(final(data).compiled_refs@).contains(s->ResolvedRefer_0@),
        sources_ready(*old(data), *old(sources)) && node_ready(Section::Refer(rel), old(data).extension.spec_name(), base@,
            store_keys(old(data).compiled_refs@), old(sources).documents@, old(sources).frames@)
            ==> r is Ok && sources_ready(*final(data), *final(sources)),
        r is Ok ==> grew(*old(data), *final(data), *old(sources), *final(sources)),
        r matches Err(e) ==> error_from(e, *old(sources)),
        store_keys(old(data).compiled_refs@).contains(canonical_path(rel@, old(data).extension.spec_name(), base@))
            ==> (r matches Ok(Section::ResolvedRefer(p)) && p@ == canonical_path(rel@, old(data).extension.spec_name(), base@))
                && *final(data) == *old(data) && *final(sources) == *old(sources),
        r is Ok && !store_keys(old(data).compiled_refs@).contains(canonical_path(rel@, old(data).extension.spec_name(), base@))
            ==> stored_fresh(*old(data), *final(data), *old(sources), canonical_path(rel@, old(data).extension.spec_name(), base@)),
        !store_keys(old(data).compiled_refs@).contains(canonical_path(rel@, old(data).extension.spec_name(), base@))
            && !doc_present(old(sources).documents@, canonical_path(rel@, old(data).extension.spec_name(), base@))
            ==> (r matches Err(CompileError::InvalidPath(p)) && p@ == canonical_path(rel@, old(data).extension.spec_name(), base@)),
        forall|j: int| !store_keys(old(data).compiled_refs@).contains(canonical_path(rel@, old(data).extension.spec_name(), base@))
            && first_untaken(old(sources).documents@, canonical_path(rel@, old(data).extension.spec_name(), base@), j)
            && (#[trigger] old(sources).documents@[j]).content is Some && old(sources).documents@[j].content->Some_0 is Err
            ==> r == Err::<Section, CompileError>(old(sources).documents@[j].content->Some_0->Err_0),
    decreases untaken(sources.documents@), Section::Refer(rel), 0nat,
{
    let ghost pre = sources_ready(*old(data), *old(sources)) && node_ready(Section::Refer(rel), old(data).extension.spec_name(), base@,
        store_keys(old(data).compiled_refs@), old(sources).documents@, old(sources).frames@);
    let with_ext = with_extension_text(rel.as_str(), data.extension.name());
    let canonical = logical_path_text(with_ext.as_str(), base);
    match data.find_compiled(canonical.as_str()) {
        Some(_) => {
            return Ok(Section::ResolvedRefer(canonical));
        },
        None => {},
    }
    let j = match sources.find_document(canonical.as_str()) {
        Some(j) => j,
        None => {
            proof {
                if pre {
                    let docs = sources.documents@;
                    if doc_present(docs, canonical@) {
                        let j = choose|j: int| 0 <= j < docs.len() && #[trigger] docs[j].path@ == canonical@;
                        assert(docs[j].content is None);
                        assert(store_keys(data.compiled_refs@).contains(canonical@));
                    }
                }
            }
            return Err(CompileError::InvalidPath(canonical));
        },
    };
    let mut taken = Source { path: canonical.clone(), content: None };
    let ghost s0 = *sources;
    sources.documents.set_and_swap(j, &mut taken);
    proof {
        lemma_take(s0.documents@, j as int, Source { path: canonical, content: None });
        lemma_wf_take(*data, s0, *sources, j as int);
    }
    assert(pre ==> taken.content matches Some(Ok(_)));
    assert(taken.content == s0.documents@[j as int].content);
    assert forall|j2: int| first_untaken(s0.documents@, canonical@, j2) implies j2 == j by {
        if j2 < j {
        } else if j < j2 {
        }
    }
    match taken.content {
        Some(Ok(doc)) => {
            let idx = data.compiled_refs.len();
            let ghost d0 = *data;
            data.compiled_refs.push((canonical.clone(), Section::PendingCompilation));
            proof {
                lemma_wf_push(d0, *data, *sources, (canonical, Section::PendingCompilation), j as int);
                lemma_keys_push(d0.compiled_refs@, data.compiled_refs@, (canonical, Section::PendingCompilation));
                if pre {
                    lemma_ready_after_take(d0, *data, s0, *sources, j as int, canonical@);
                }
            }
            let dir = parent_dir(canonical.as_str());
            let ghost d1 = *data;
            match doc.compile(data, dir.as_str(), sources) {
                Ok(compiled) => {
                    let ghost d2 = *data;
                    data.compiled_refs.set(idx, (canonical.clone(), compiled));
                    proof {
                        lemma_wf_set(d2, *data, *sources, idx as int, (canonical, compiled));
                        if pre {
                            lemma_sources_ready_same_keys(d2, *data, *sources);
                        }
                        assert(data.compiled_refs@[idx as int].0@ == canonical@);
                    }
                    Ok(Section::ResolvedRefer(canonical))
                },
                Err(e) => Err(e),
            }
        },
        Some(Err(e)) => Err(e),
        None => Err(CompileError::InvalidPath(canonical)),
    }
}

} // verus!
