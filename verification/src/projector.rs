//! The projection of the binding root onto a list of bindings, as a state
//! machine. The machine asks for one file-system operation at a time (an
//! `Action`) and is told how it went (an `Event`); whoever drives it does
//! the I/O. A listing or metadata failure aborts the projection; a file
//! that cannot be read as text is left out and the projection goes on.

use vstd::prelude::*;
use crate::binding::{texts, Binding, BindingView};

verus! {

/// Where the projection stands.
#[derive(Clone, Copy, PartialEq, Eq, Structural, Debug)]
pub enum Phase {
    /// The root directory is to be listed.
    OpeningRoot,
    /// The next entry of the root is awaited.
    ScanningRoot,
    /// The metadata of the root entry just delivered is awaited.
    Inspecting,
    /// The next subdirectory is to be listed.
    OpeningBinding,
    /// The next entry of the current subdirectory is awaited.
    ScanningBinding,
    /// The text of the file just delivered is awaited.
    Reading,
    /// Every subdirectory has been read.
    Finished,
    /// A listing or a metadata lookup failed.
    Failed,
}

/// The file-system operation that the machine asks for next.
#[derive(Clone, Copy, PartialEq, Eq, Structural, Debug)]
pub enum Action {
    /// List the binding root.
    ListRoot,
    /// Take the next entry of the root's listing.
    NextRootEntry,
    /// Look up the metadata of the root entry just delivered.
    Stat,
    /// List the root entry with this index in enumeration order.
    ListBinding(usize),
    /// Take the next entry of the current subdirectory's listing.
    NextBindingEntry,
    /// Read the entry just delivered as UTF-8 text.
    ReadFile,
    /// Nothing more to do: the outcome is ready.
    Done,
}

/// How the operation that was asked for went.
#[derive(Debug)]
pub enum Event {
    /// The directory was opened for listing.
    Opened,
    /// The listing gave an entry with this base name.
    Entry(String),
    /// The listing is exhausted.
    End,
    /// The metadata was found; the flag says whether the entry is a directory.
    Metadata(bool),
    /// The file was read as text.
    Text(String),
    /// The operation failed, with this description.
    Failed(String),
}

/// An event, with texts in place of strings.
pub enum EventView {
    Opened,
    Entry(Seq<char>),
    End,
    Metadata(bool),
    Text(Seq<char>),
    Failed(Seq<char>),
}

impl View for Event {
    type V = EventView;

    open spec fn view(&self) -> EventView {
        match self {
            Event::Opened => EventView::Opened,
            Event::Entry(name) => EventView::Entry(name@),
            Event::End => EventView::End,
            Event::Metadata(is_dir) => EventView::Metadata(*is_dir),
            Event::Text(text) => EventView::Text(text@),
            Event::Failed(reason) => EventView::Failed(reason@),
        }
    }
}

/// The state of a projection.
pub struct ProjectorView {
    pub phase: Phase,
    /// The base names of the root entries delivered so far, in order.
    pub roots: Seq<Seq<char>>,
    /// The indices in `roots` of the entries found to be directories.
    pub kept: Seq<int>,
    /// The binding being filled.
    pub current: BindingView,
    /// The base name of the file whose text is awaited.
    pub file: Seq<char>,
    /// The bindings completed so far.
    pub done: Seq<BindingView>,
    /// The description of the failure that aborted the projection.
    pub error: Seq<char>,
}

/// A binding with no name and no properties.
pub open spec fn blank() -> BindingView {
    BindingView { name: Seq::empty(), info: Map::empty() }
}

/// The state in which every projection starts.
pub open spec fn initial() -> ProjectorView {
    ProjectorView {
        phase: Phase::OpeningRoot,
        roots: Seq::empty(),
        kept: Seq::empty(),
        current: blank(),
        file: Seq::empty(),
        done: Seq::empty(),
        error: Seq::empty(),
    }
}

/// The phase once `done` of `kept` subdirectories have been read.
pub open spec fn phase_after(done: nat, kept: nat) -> Phase {
    if done < kept {
        Phase::OpeningBinding
    } else {
        Phase::Finished
    }
}

/// The state aborted by a failure with the given description.
pub open spec fn aborted(s: ProjectorView, reason: Seq<char>) -> ProjectorView {
    ProjectorView { phase: Phase::Failed, error: reason, ..s }
}

/// The transition function. An event that does not answer the pending
/// action leaves the state as it is.
pub open spec fn next(s: ProjectorView, e: EventView) -> ProjectorView {
    match s.phase {
        Phase::OpeningRoot => match e {
            EventView::Opened => ProjectorView { phase: Phase::ScanningRoot, ..s },
            EventView::Failed(reason) => aborted(s, reason),
            _ => s,
        },
        Phase::ScanningRoot => match e {
            EventView::Entry(name) => ProjectorView {
                phase: Phase::Inspecting,
                roots: s.roots.push(name),
                ..s
            },
            EventView::End => ProjectorView { phase: phase_after(0, s.kept.len()), ..s },
            EventView::Failed(reason) => aborted(s, reason),
            _ => s,
        },
        Phase::Inspecting => match e {
            EventView::Metadata(is_dir) => ProjectorView {
                phase: Phase::ScanningRoot,
                kept: if is_dir {
                    s.kept.push(s.roots.len() - 1)
                } else {
                    s.kept
                },
                ..s
            },
            EventView::Failed(reason) => aborted(s, reason),
            _ => s,
        },
        Phase::OpeningBinding => match e {
            EventView::Opened => ProjectorView {
                phase: Phase::ScanningBinding,
                current: BindingView {
                    name: s.roots[s.kept[s.done.len() as int]],
                    info: Map::empty(),
                },
                ..s
            },
            EventView::Failed(reason) => aborted(s, reason),
            _ => s,
        },
        Phase::ScanningBinding => match e {
            EventView::Entry(name) => ProjectorView { phase: Phase::Reading, file: name, ..s },
            EventView::End => ProjectorView {
                phase: phase_after(s.done.len() + 1, s.kept.len()),
                done: s.done.push(s.current),
                current: blank(),
                ..s
            },
            EventView::Failed(reason) => aborted(s, reason),
            _ => s,
        },
        Phase::Reading => match e {
            EventView::Text(text) => ProjectorView {
                phase: Phase::ScanningBinding,
                current: BindingView {
                    name: s.current.name,
                    info: s.current.info.insert(s.file, text),
                },
                ..s
            },
            EventView::Failed(_) => ProjectorView { phase: Phase::ScanningBinding, ..s },
            _ => s,
        },
        Phase::Finished => s,
        Phase::Failed => s,
    }
}

/// The action that a state waits for.
pub open spec fn pending(s: ProjectorView) -> Action {
    match s.phase {
        Phase::OpeningRoot => Action::ListRoot,
        Phase::ScanningRoot => Action::NextRootEntry,
        Phase::Inspecting => Action::Stat,
        Phase::OpeningBinding => Action::ListBinding(s.kept[s.done.len() as int] as usize),
        Phase::ScanningBinding => Action::NextBindingEntry,
        Phase::Reading => Action::ReadFile,
        Phase::Finished => Action::Done,
        Phase::Failed => Action::Done,
    }
}

/// What a state has to report: nothing while the projection is under way,
/// the bindings once it has finished, the failure once it has failed.
pub open spec fn report(s: ProjectorView) -> Option<Result<Seq<BindingView>, Seq<char>>> {
    match s.phase {
        Phase::Finished => Some(Ok(s.done)),
        Phase::Failed => Some(Err(s.error)),
        _ => None,
    }
}

/// What holds of every state that a projection reaches: the directories
/// kept are root entries in enumeration order, the bindings completed are
/// the first of them, by name and in order, and the binding being filled
/// is the next.
pub open spec fn inv(s: ProjectorView) -> bool {
    &&& forall|j: int| 0 <= j < s.kept.len() ==> 0 <= (#[trigger] s.kept[j]) < s.roots.len()
    &&& forall|i: int, j: int|
        0 <= i < j < s.kept.len() ==> (#[trigger] s.kept[i]) < (#[trigger] s.kept[j])
    &&& s.done.len() <= s.kept.len()
    &&& forall|j: int|
        0 <= j < s.done.len() ==> (#[trigger] s.done[j]).name == s.roots[s.kept[j]]
    &&& match s.phase {
        Phase::OpeningRoot => s.roots.len() == 0 && s.kept.len() == 0,
        Phase::ScanningRoot => s.done.len() == 0,
        Phase::Inspecting => s.done.len() == 0 && s.roots.len() > 0 && forall|j: int|
            0 <= j < s.kept.len() ==> (#[trigger] s.kept[j]) < s.roots.len() - 1,
        Phase::OpeningBinding => s.done.len() < s.kept.len(),
        Phase::ScanningBinding | Phase::Reading => s.done.len() < s.kept.len() && s.current.name
            == s.roots[s.kept[s.done.len() as int]],
        Phase::Finished => s.done.len() == s.kept.len(),
        Phase::Failed => true,
    }
}

/// A sequence of indices as mathematical integers.
pub open spec fn indices(kept: Seq<usize>) -> Seq<int> {
    Seq::new(kept.len(), |i: int| kept[i] as int)
}

/// The views of a sequence of bindings, in order.
pub open spec fn views(bindings: Seq<Binding>) -> Seq<BindingView> {
    Seq::new(bindings.len(), |i: int| bindings[i]@)
}

/// Every binding of the sequence is well formed.
pub open spec fn all_wf(bindings: Seq<Binding>) -> bool {
    forall|i: int| 0 <= i < bindings.len() ==> (#[trigger] bindings[i]).wf()
}

/// A projection in progress.
#[derive(Debug)]
pub struct Projector {
    phase: Phase,
    roots: Vec<String>,
    kept: Vec<usize>,
    current: Binding,
    file: String,
    done: Vec<Binding>,
    error: String,
}

impl View for Projector {
    type V = ProjectorView;

    closed spec fn view(&self) -> ProjectorView {
        ProjectorView {
            phase: self.phase,
            roots: texts(self.roots@),
            kept: indices(self.kept@),
            current: self.current@,
            file: self.file@,
            done: views(self.done@),
            error: self.error@,
        }
    }
}

impl Projector {
    /// The state satisfies `inv`, and every binding in it is well formed.
    pub closed spec fn wf(&self) -> bool {
        &&& inv(self@)
        &&& self.current.wf()
        &&& all_wf(self.done@)
    }

    /// What `wf` says of the state.
    pub proof fn lemma_wf_inv(&self)
        requires
            self.wf(),
        ensures
            inv(self@),
    {
    }

    /// A projection that has not started: it waits for the root's listing.
    pub fn new() -> (projector: Projector)
        ensures
            projector.wf(),
            projector@ == initial(),
    {
        let projector = Projector {
            phase: Phase::OpeningRoot,
            roots: Vec::new(),
            kept: Vec::new(),
            current: Binding::new(String::new()),
            file: String::new(),
            done: Vec::new(),
            error: String::new(),
        };
        assert(projector@.roots =~= Seq::<Seq<char>>::empty());
        assert(projector@.kept =~= Seq::<int>::empty());
        assert(projector@.done =~= Seq::<BindingView>::empty());
        projector
    }

    /// The phase in which the projection stands.
    pub fn phase(&self) -> (phase: Phase)
        ensures
            phase == self@.phase,
    {
        self.phase
    }

    /// The action that the projection waits for.
    pub fn pending(&self) -> (action: Action)
        requires
            self.wf(),
        ensures
            action == pending(self@),
    {
        match self.phase {
            Phase::OpeningRoot => Action::ListRoot,
            Phase::ScanningRoot => Action::NextRootEntry,
            Phase::Inspecting => Action::Stat,
            Phase::OpeningBinding => Action::ListBinding(self.kept[self.done.len()]),
            Phase::ScanningBinding => Action::NextBindingEntry,
            Phase::Reading => Action::ReadFile,
            Phase::Finished => Action::Done,
            Phase::Failed => Action::Done,
        }
    }

    /// Aborts the projection.
    fn abort(&mut self, reason: String)
        requires
            old(self).wf(),
        ensures
            final(self).wf(),
            final(self)@ == aborted(old(self)@, reason@),
    {
        self.phase = Phase::Failed;
        self.error = reason;
    }

    /// Takes in how the pending action went and says what to do next.
    pub fn step(&mut self, event: Event) -> (action: Action)
        requires
            old(self).wf(),
        ensures
            final(self).wf(),
            final(self)@ == next(old(self)@, event@),
            action == pending(final(self)@),
    {
        match self.phase {
            Phase::OpeningRoot => match event {
                Event::Opened => {
                    self.phase = Phase::ScanningRoot;
                },
                Event::Failed(reason) => {
                    self.abort(reason);
                },
                _ => {},
            },
            Phase::ScanningRoot => match event {
                Event::Entry(name) => {
                    self.roots.push(name);
                    self.phase = Phase::Inspecting;
                    assert(texts(self.roots@) =~= texts(old(self).roots@).push(name@));
                },
                Event::End => {
                    self.phase = if self.kept.len() > 0 {
                        Phase::OpeningBinding
                    } else {
                        Phase::Finished
                    };
                },
                Event::Failed(reason) => {
                    self.abort(reason);
                },
                _ => {},
            },
            Phase::Inspecting => match event {
                Event::Metadata(is_dir) => {
                    if is_dir {
                        let index: usize = self.roots.len() - 1;
                        self.kept.push(index);
                        assert(indices(self.kept@) =~= indices(old(self).kept@).push(
                            index as int,
                        ));
                    }
                    self.phase = Phase::ScanningRoot;
                },
                Event::Failed(reason) => {
                    self.abort(reason);
                },
                _ => {},
            },
            Phase::OpeningBinding => match event {
                Event::Opened => {
                    let index: usize = self.kept[self.done.len()];
                    self.current = Binding::new(self.roots[index].clone());
                    self.phase = Phase::ScanningBinding;
                },
                Event::Failed(reason) => {
                    self.abort(reason);
                },
                _ => {},
            },
            Phase::ScanningBinding => match event {
                Event::Entry(name) => {
                    self.file = name;
                    self.phase = Phase::Reading;
                },
                Event::End => {
                    let mut complete = Binding::new(String::new());
                    core::mem::swap(&mut self.current, &mut complete);
                    self.done.push(complete);
                    self.phase = if self.done.len() < self.kept.len() {
                        Phase::OpeningBinding
                    } else {
                        Phase::Finished
                    };
                    assert(views(self.done@) =~= views(old(self).done@).push(old(self).current@));
                },
                Event::Failed(reason) => {
                    self.abort(reason);
                },
                _ => {},
            },
            Phase::Reading => match event {
                Event::Text(text) => {
                    let key = self.file.clone();
                    self.current.insert(key, text);
                    self.phase = Phase::ScanningBinding;
                    assert(self.current@ == (BindingView {
                        name: old(self).current@.name,
                        info: old(self).current@.info.insert(old(self).file@, text@),
                    }));
                },
                Event::Failed(_) => {
                    self.phase = Phase::ScanningBinding;
                },
                _ => {},
            },
            Phase::Finished => {},
            Phase::Failed => {},
        }
        self.pending()
    }

    /// The outcome, once the pending action is `Done`: the bindings in
    /// enumeration order, or the description of the failure and no binding.
    /// There is none while the projection is under way.
    pub fn outcome(self) -> (outcome: Option<Result<Vec<Binding>, String>>)
        requires
            self.wf(),
        ensures
            match report(self@) {
                Some(Ok(done)) => outcome matches Some(Ok(bindings)) && views(bindings@) == done
                    && all_wf(bindings@),
                Some(Err(error)) => outcome matches Some(Err(reason)) && reason@ == error,
                None => outcome is None,
            },
    {
        match self.phase {
            Phase::Finished => Some(Ok(self.done)),
            Phase::Failed => Some(Err(self.error)),
            _ => None,
        }
    }
}

} // verus!
