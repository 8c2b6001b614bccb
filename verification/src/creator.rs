//! The materializer: which file-system action comes next, given what the
//! file system answered to the previous one.
//!
//! The library touches no file system. A caller performs each requested
//! [`Action`] and reports what happened as an [`Event`]; the [`Materializer`]
//! decides what follows.

use crate::entities::{entries_view, DirEntry, DirEntryView, EntryType};
use crate::error::{ContractViolation, CreateError};
use vstd::prelude::*;

verus! {

/// What the caller reports back after performing an action.
#[derive(Debug)]
pub enum Event {
    /// The probed path exists, as any kind of object.
    Exists,
    /// The probed path does not exist.
    Missing,
    /// The requested creation succeeded.
    Created,
    /// The file system reported an error.
    Failed(std::io::Error),
}

/// What the caller is asked to do next.
#[derive(Debug, PartialEq, Eq)]
pub enum Action {
    /// Report whether anything exists at the path.
    Probe(String),
    /// Create the directory at the path, and every missing ancestor.
    CreateDirAll(String),
    /// Create the parent directory of the path, and every missing ancestor
    /// of it; nothing where the path has no parent.
    EnsureParent(String),
    /// Create an empty file at the path and flush it to durable storage.
    CreateFile(String),
    /// Nothing is left to do: the run is over.
    Stop,
}

/// The mathematical value of an `Action`.
pub enum ActionView {
    Probe(Seq<char>),
    CreateDirAll(Seq<char>),
    EnsureParent(Seq<char>),
    CreateFile(Seq<char>),
    Stop,
}

impl View for Action {
    type V = ActionView;

    open spec fn view(&self) -> ActionView {
        match self {
            Action::Probe(p) => ActionView::Probe(p@),
            Action::CreateDirAll(p) => ActionView::CreateDirAll(p@),
            Action::EnsureParent(p) => ActionView::EnsureParent(p@),
            Action::CreateFile(p) => ActionView::CreateFile(p@),
            Action::Stop => ActionView::Stop,
        }
    }
}

/// Where a run stands.
#[derive(Debug)]
pub enum Stage {
    /// Waiting to learn whether the current entry's target exists.
    Probing,
    /// Waiting for the current entry's directory to be created.
    CreatingDir,
    /// Waiting for the parent of the current entry's file to be created.
    EnsuringParent,
    /// Waiting for the current entry's file to be created.
    CreatingFile,
    /// Every entry has been dealt with.
    Finished,
    /// The run was given up.
    Aborted(CreateError),
}

/// The mathematical value of a `Materializer`.
pub struct RunState {
    pub out_dir: Seq<char>,
    pub entries: Seq<DirEntryView>,
    /// How many entries have been dealt with.
    pub index: nat,
    pub stage: Stage,
}

impl RunState {
    /// The run is waiting for an event about the entry at `index`.
    pub open spec fn running(self) -> bool {
        !(self.stage is Finished) && !(self.stage is Aborted)
    }

    /// The count of finished entries is in range, and a running state has
    /// a current entry.
    pub open spec fn wf(self) -> bool {
        &&& self.index <= self.entries.len()
        &&& self.running() ==> self.index < self.entries.len()
    }

    /// The path at which the current entry is created: the output root and
    /// the entry's path, put together as they are.
    pub open spec fn target(self) -> Seq<char>
        recommends
            self.index < self.entries.len(),
    {
        self.out_dir + self.entries[self.index as int].full_path
    }

    /// The state with the given stage.
    pub open spec fn at(self, stage: Stage) -> RunState {
        RunState { stage, ..self }
    }

    /// The state after the current entry is done with: probing the next
    /// entry, or finished behind the last one.
    pub open spec fn advanced(self) -> RunState {
        RunState {
            index: self.index + 1,
            stage: if self.index + 1 < self.entries.len() {
                Stage::Probing
            } else {
                Stage::Finished
            },
            ..self
        }
    }

    /// The state after the run is given up for the given reason.
    pub open spec fn aborted(self, why: CreateError) -> RunState {
        self.at(Stage::Aborted(why))
    }

    /// The action that the state waits for.
    pub open spec fn action(self) -> ActionView {
        match self.stage {
            Stage::Probing => ActionView::Probe(self.target()),
            Stage::CreatingDir => ActionView::CreateDirAll(self.target()),
            Stage::EnsuringParent => ActionView::EnsureParent(self.target()),
            Stage::CreatingFile => ActionView::CreateFile(self.target()),
            Stage::Finished => ActionView::Stop,
            Stage::Aborted(_) => ActionView::Stop,
        }
    }

    /// The state that follows when `event` is reported.
    ///
    /// A target that exists is skipped, whatever stands there. A missing
    /// one is created by its tag: a directory in one action, a file in two
    /// (its parent first). A reported error ends the run with that error.
    /// An event that does not answer the pending action ends it too, and so
    /// does a missing target whose entry is tagged `Unknown`. A run that is
    /// over stays as it is.
    pub open spec fn next(self, event: Event) -> RunState {
        match self.stage {
            Stage::Finished => self,
            Stage::Aborted(_) => self,
            Stage::Probing => match event {
                Event::Exists => self.advanced(),
                Event::Missing => match self.entries[self.index as int].entry_type {
                    EntryType::Directory => self.at(Stage::CreatingDir),
                    EntryType::File => self.at(Stage::EnsuringParent),
                    EntryType::Unknown => self.aborted(
                        CreateError::Violation(ContractViolation::UnknownEntry),
                    ),
                },
                Event::Created => self.aborted(
                    CreateError::Violation(ContractViolation::UnexpectedEvent),
                ),
                Event::Failed(e) => self.aborted(CreateError::Io(e)),
            },
            Stage::CreatingDir => self.after_creation(event, self.advanced()),
            Stage::EnsuringParent => self.after_creation(event, self.at(Stage::CreatingFile)),
            Stage::CreatingFile => self.after_creation(event, self.advanced()),
        }
    }

    /// The state that follows a creation: `then` where it succeeded.
    pub open spec fn after_creation(self, event: Event, then: RunState) -> RunState {
        match event {
            Event::Created => then,
            Event::Failed(e) => self.aborted(CreateError::Io(e)),
            Event::Exists => self.aborted(
                CreateError::Violation(ContractViolation::UnexpectedEvent),
            ),
            Event::Missing => self.aborted(
                CreateError::Violation(ContractViolation::UnexpectedEvent),
            ),
        }
    }

    /// How the run ended: nothing while it is running.
    pub open spec fn outcome(self) -> Option<Result<(), CreateError>> {
        match self.stage {
            Stage::Finished => Some(Ok(())),
            Stage::Aborted(why) => Some(Err(why)),
            _ => None,
        }
    }
}

/// No entry is tagged `Unknown`.
pub open spec fn all_known(entries: Seq<DirEntryView>) -> bool {
    forall|i: int| 0 <= i < entries.len() ==> (#[trigger] entries[i]).entry_type != EntryType::Unknown
}

/// The state in which a run over `entries` below `out_dir` begins.
pub open spec fn initial(out_dir: Seq<char>, entries: Seq<DirEntryView>) -> RunState {
    RunState {
        out_dir,
        entries,
        index: 0,
        stage: if entries.len() == 0 {
            Stage::Finished
        } else {
            Stage::Probing
        },
    }
}

/// One run of creating a list of entries below an output root.
#[derive(Debug)]
pub struct Materializer {
    out_dir: String,
    entries: Vec<DirEntry>,
    index: usize,
    stage: Stage,
}

impl View for Materializer {
    type V = RunState;

    closed spec fn view(&self) -> RunState {
        RunState {
            out_dir: self.out_dir@,
            entries: entries_view(self.entries@),
            index: self.index as nat,
            stage: self.stage,
        }
    }
}

impl Materializer {
    #[verifier::type_invariant]
    spec fn inv(&self) -> bool {
        self@.wf()
    }

    /// Begins a run. A list that holds an entry tagged `Unknown` is
    /// refused, before anything is asked of the file system.
    pub fn new(out_dir: String, entries: Vec<DirEntry>) -> (made: Result<Materializer, CreateError>)
        ensures
            all_known(entries_view(entries@)) ==> made is Ok && made->Ok_0@ == initial(
                out_dir@,
                entries_view(entries@),
            ),
            !all_known(entries_view(entries@)) ==> made is Err && made->Err_0
                == CreateError::Violation(ContractViolation::UnknownEntry),
    {
        let mut i: usize = 0;
        while i < entries.len()
            invariant
                i <= entries.len(),
                all_known(entries_view(entries@).take(i as int)),
            decreases entries.len() - i,
        {
            if entries[i].entry_type == EntryType::Unknown {
                assert(entries_view(entries@)[i as int].entry_type == EntryType::Unknown);
                return Err(CreateError::Violation(ContractViolation::UnknownEntry));
            }
            assert(entries_view(entries@).take(i + 1) =~= entries_view(entries@).take(
                i as int,
            ).push(entries_view(entries@)[i as int]));
            i += 1;
        }
        assert(entries_view(entries@).take(i as int) =~= entries_view(entries@));
        let stage = if entries.len() == 0 {
            Stage::Finished
        } else {
            Stage::Probing
        };
        Ok(Materializer { out_dir, entries, index: 0, stage })
    }

    /// The path at which the current entry is created.
    fn target(&self) -> (path: String)
        requires
            self@.index < self@.entries.len(),
        ensures
            path@ == self@.target(),
    {
        let mut path = self.out_dir.clone();
        path.append(self.entries[self.index].full_path.as_str());
        path
    }

    /// The stage that follows a creation: `then` where it succeeded, none
    /// where the current entry is done with.
    fn after_creation(event: Event, then: Option<Stage>) -> (stage: Option<Stage>)
        ensures
            stage == match event {
                Event::Created => then,
                Event::Failed(e) => Some(Stage::Aborted(CreateError::Io(e))),
                _ => Some(
                    Stage::Aborted(CreateError::Violation(ContractViolation::UnexpectedEvent)),
                ),
            },
    {
        match event {
            Event::Created => then,
            Event::Failed(e) => Some(Stage::Aborted(CreateError::Io(e))),
            _ => Some(Stage::Aborted(CreateError::Violation(ContractViolation::UnexpectedEvent))),
        }
    }

    /// Takes in what the file system answered to the pending action, and
    /// says what to do next.
    pub fn step(&mut self, event: Event) -> (action: Action)
        ensures
            final(self)@ == old(self)@.next(event),
            action@ == final(self)@.action(),
    {
        proof {
            use_type_invariant(&*self);
        }
        assert(self@.running() ==> self.index < self.entries.len());
        // The stage to go to; none where the current entry is done with.
        let stage: Option<Stage> = match &self.stage {
            Stage::Finished => {
                return Action::Stop;
            },
            Stage::Aborted(_) => {
                return Action::Stop;
            },
            Stage::Probing => match event {
                Event::Exists => None,
                Event::Missing => match self.entries[self.index].entry_type {
                    EntryType::Directory => Some(Stage::CreatingDir),
                    EntryType::File => Some(Stage::EnsuringParent),
                    EntryType::Unknown => Some(
                        Stage::Aborted(CreateError::Violation(ContractViolation::UnknownEntry)),
                    ),
                },
                Event::Created => Some(
                    Stage::Aborted(CreateError::Violation(ContractViolation::UnexpectedEvent)),
                ),
                Event::Failed(e) => Some(Stage::Aborted(CreateError::Io(e))),
            },
            Stage::CreatingDir => Self::after_creation(event, None),
            Stage::EnsuringParent => Self::after_creation(event, Some(Stage::CreatingFile)),
            Stage::CreatingFile => Self::after_creation(event, None),
        };
        match stage {
            Some(stage) => {
                self.stage = stage;
            },
            None => {
                if self.index + 1 < self.entries.len() {
                    self.index = self.index + 1;
                    self.stage = Stage::Probing;
                } else {
                    self.stage = Stage::Finished;
                    self.index = self.index + 1;
                }
            },
        }
        self.action()
    }

    /// How the run ended: nothing while it is still running.
    pub fn outcome(self) -> (outcome: Option<Result<(), CreateError>>)
        ensures
            outcome == self@.outcome(),
    {
        match self.stage {
            Stage::Finished => Some(Ok(())),
            Stage::Aborted(why) => Some(Err(why)),
            _ => None,
        }
    }

    /// The action that the run waits for.
    pub fn action(&self) -> (action: Action)
        ensures
            action@ == self@.action(),
            self@.wf(),
    {
        proof {
            use_type_invariant(self);
        }
        match &self.stage {
            Stage::Probing => Action::Probe(self.target()),
            Stage::CreatingDir => Action::CreateDirAll(self.target()),
            Stage::EnsuringParent => Action::EnsureParent(self.target()),
            Stage::CreatingFile => Action::CreateFile(self.target()),
            Stage::Finished => Action::Stop,
            Stage::Aborted(_) => Action::Stop,
        }
    }
}

} // verus!
