//! The lock on an authority file.
//!
//! The lock is made of two files beside the target `NAME`: `NAME-c` is
//! created and must not exist before, and `NAME-l` is made as a hard link
//! to it. Who makes both holds the lock; removing both gives it up. Nothing
//! here touches a filesystem: an acquisition says which step is to be taken
//! next, the caller takes it and reports how it ended.
//!
//! No lock is ever taken for stale, and none is waited for: whether and when
//! to try again is the caller's to decide. That two holders exclude each
//! other is proved at the end of this file, of a directory that creates
//! files and links atomically.

use vstd::prelude::*;
use vstd::string::StringExecFns;

verus! {

/// The name of the file whose creation starts an acquisition.
pub open spec fn creat_name(name: Seq<char>) -> Seq<char> {
    name + "-c"@
}

/// The name of the hard link that completes an acquisition.
pub open spec fn link_name(name: Seq<char>) -> Seq<char> {
    name + "-l"@
}

/// The two files of a lock have different names.
pub proof fn lemma_names_differ(name: Seq<char>)
    ensures
        creat_name(name) != link_name(name),
{
    reveal_strlit("-c");
    reveal_strlit("-l");
    let c = creat_name(name);
    let l = link_name(name);
    assert(c[name.len() as int + 1] == 'c');
    assert(l[name.len() as int + 1] == 'l');
}

/// How a step on the filesystem ended, as far as the protocol cares.
#[derive(Clone, Copy, Debug, PartialEq, Eq, Structural)]
pub enum FsOutcome {
    /// The step was taken.
    Done,
    /// The file to be made is there already.
    AlreadyExists,
    /// The step failed for any other reason.
    Failed,
}

/// Why a lock was not acquired.
#[derive(Clone, Copy, Debug, PartialEq, Eq, Structural)]
pub enum LockError {
    /// The target has no file name.
    InvalidFilename,
    /// Another holder has the lock. Trying again later may succeed.
    AlreadyLocked,
    /// The filesystem refused a step for a reason of its own.
    Io,
}

/// A step on the filesystem. The names are those of files beside the
/// target.
#[derive(Clone, Debug, PartialEq, Eq)]
pub enum LockAction {
    /// Create the file, for its owner alone, and close it unwritten. The
    /// step fails where the file exists.
    CreateExclusive(String),
    /// Make the second name a hard link to the first.
    HardLink(String, String),
    /// Remove the file.
    Remove(String),
}

/// A step as a mathematical value.
pub enum ActionView {
    CreateExclusive(Seq<char>),
    HardLink(Seq<char>, Seq<char>),
    Remove(Seq<char>),
}

impl View for LockAction {
    type V = ActionView;

    open spec fn view(&self) -> ActionView {
        match self {
            LockAction::CreateExclusive(path) => ActionView::CreateExclusive(path@),
            LockAction::HardLink(from, to) => ActionView::HardLink(from@, to@),
            LockAction::Remove(path) => ActionView::Remove(path@),
        }
    }
}

/// The claim on a target: the names of the two files that make it.
#[derive(Debug, PartialEq, Eq)]
pub struct Lock {
    creat_path: String,
    link_path: String,
}

/// A lock as a mathematical value.
pub struct LockView {
    pub creat_path: Seq<char>,
    pub link_path: Seq<char>,
}

impl View for Lock {
    type V = LockView;

    closed spec fn view(&self) -> LockView {
        LockView { creat_path: self.creat_path@, link_path: self.link_path@ }
    }
}

impl LockView {
    /// The steps that give the lock up.
    pub open spec fn release(self) -> Seq<ActionView> {
        seq![ActionView::Remove(self.creat_path), ActionView::Remove(self.link_path)]
    }
}

impl Lock {
    /// The steps that give the lock up: both files are removed. The caller
    /// takes each step and passes over its failure, so that a lock whose
    /// files are gone already is given up without complaint.
    pub fn release(&self) -> (actions: Vec<LockAction>)
        ensures
            actions@.len() == 2,
            actions@[0]@ == self@.release()[0],
            actions@[1]@ == self@.release()[1],
    {
        let mut actions: Vec<LockAction> = Vec::new();
        actions.push(LockAction::Remove(self.creat_path.clone()));
        actions.push(LockAction::Remove(self.link_path.clone()));
        actions
    }
}

/// How far an acquisition has come.
#[derive(Debug, PartialEq, Eq)]
pub enum Acquisition {
    /// The first file is to be created.
    Creating { creat_path: String, link_path: String },
    /// The first file is made; the link is to be made.
    Linking { creat_path: String, link_path: String },
    /// The link was refused; the first file is to be removed again.
    Abandoning { creat_path: String, error: LockError },
    /// Both files are made.
    Held(Lock),
    /// The lock was not acquired, and nothing of the attempt is left.
    Failed(LockError),
}

/// An acquisition as a mathematical value.
pub enum AcquisitionView {
    Creating { creat_path: Seq<char>, link_path: Seq<char> },
    Linking { creat_path: Seq<char>, link_path: Seq<char> },
    Abandoning { creat_path: Seq<char>, error: LockError },
    Held(LockView),
    Failed(LockError),
}

impl View for Acquisition {
    type V = AcquisitionView;

    open spec fn view(&self) -> AcquisitionView {
        match self {
            Acquisition::Creating { creat_path, link_path } => AcquisitionView::Creating {
                creat_path: creat_path@,
                link_path: link_path@,
            },
            Acquisition::Linking { creat_path, link_path } => AcquisitionView::Linking {
                creat_path: creat_path@,
                link_path: link_path@,
            },
            Acquisition::Abandoning { creat_path, error } => AcquisitionView::Abandoning {
                creat_path: creat_path@,
                error: *error,
            },
            Acquisition::Held(lock) => AcquisitionView::Held(lock@),
            Acquisition::Failed(error) => AcquisitionView::Failed(*error),
        }
    }
}

/// The error that a refused step stands for: a file in the way means that
/// the lock is held.
pub open spec fn refusal(outcome: FsOutcome) -> LockError {
    if outcome == FsOutcome::AlreadyExists {
        LockError::AlreadyLocked
    } else {
        LockError::Io
    }
}

impl AcquisitionView {
    /// Where an acquisition starts for a target with this file name.
    pub open spec fn begin(file_name: Option<Seq<char>>) -> AcquisitionView {
        match file_name {
            Some(name) => AcquisitionView::Creating {
                creat_path: creat_name(name),
                link_path: link_name(name),
            },
            None => AcquisitionView::Failed(LockError::InvalidFilename),
        }
    }

    /// The step to take next, or none where the acquisition has ended.
    pub open spec fn action(self) -> Option<ActionView> {
        match self {
            AcquisitionView::Creating { creat_path, .. } => Some(
                ActionView::CreateExclusive(creat_path),
            ),
            AcquisitionView::Linking { creat_path, link_path } => Some(
                ActionView::HardLink(creat_path, link_path),
            ),
            AcquisitionView::Abandoning { creat_path, .. } => Some(ActionView::Remove(creat_path)),
            AcquisitionView::Held(_) => None,
            AcquisitionView::Failed(_) => None,
        }
    }

    /// Where the acquisition stands once its step has ended with `outcome`.
    ///
    /// A created file is linked next, and the link completes the lock. A
    /// refused creation fails the acquisition at once. A refused link fails
    /// it after the created file has been removed, whether or not that
    /// removal succeeds.
    pub open spec fn advance(self, outcome: FsOutcome) -> AcquisitionView {
        match self {
            AcquisitionView::Creating { creat_path, link_path } => if outcome == FsOutcome::Done {
                AcquisitionView::Linking { creat_path, link_path }
            } else {
                AcquisitionView::Failed(refusal(outcome))
            },
            AcquisitionView::Linking { creat_path, link_path } => if outcome == FsOutcome::Done {
                AcquisitionView::Held(LockView { creat_path, link_path })
            } else {
                AcquisitionView::Abandoning { creat_path, error: refusal(outcome) }
            },
            AcquisitionView::Abandoning { error, .. } => AcquisitionView::Failed(error),
            AcquisitionView::Held(_) => self,
            AcquisitionView::Failed(_) => self,
        }
    }

    /// How the acquisition ended, or nothing while it has a step to take.
    pub open spec fn result(self) -> Option<Result<LockView, LockError>> {
        match self {
            AcquisitionView::Held(lock) => Some(Ok(lock)),
            AcquisitionView::Failed(error) => Some(Err(error)),
            _ => None,
        }
    }

    /// The most steps that the acquisition can still take.
    pub open spec fn steps_left(self) -> nat {
        match self {
            AcquisitionView::Creating { .. } => 3,
            AcquisitionView::Linking { .. } => 2,
            AcquisitionView::Abandoning { .. } => 1,
            AcquisitionView::Held(_) => 0,
            AcquisitionView::Failed(_) => 0,
        }
    }
}

/// The view of how an acquisition ended.
pub open spec fn result_view(r: Option<Result<Lock, LockError>>) -> Option<
    Result<LockView, LockError>,
> {
    match r {
        Some(Ok(lock)) => Some(Ok(lock@)),
        Some(Err(error)) => Some(Err(error)),
        None => None,
    }
}

impl Acquisition {
    /// Starts to acquire the lock on a target with this file name. A target
    /// without a file name cannot be locked.
    pub fn begin(file_name: Option<&str>) -> (state: Self)
        ensures
            state@ == AcquisitionView::begin(
                match file_name {
                    Some(name) => Some(name@),
                    None => None,
                },
            ),
    {
        match file_name {
            Some(name) => {
                let mut creat_path = String::from_str(name);
                creat_path.append("-c");
                let mut link_path = String::from_str(name);
                link_path.append("-l");
                Acquisition::Creating { creat_path, link_path }
            },
            None => Acquisition::Failed(LockError::InvalidFilename),
        }
    }

    /// The step to take next, or none where the acquisition has ended.
    pub fn action(&self) -> (action: Option<LockAction>)
        ensures
            match action {
                Some(action) => self@.action() == Some(action@),
                None => self@.action() is None,
            },
    {
        match self {
            Acquisition::Creating { creat_path, .. } => Some(
                LockAction::CreateExclusive(creat_path.clone()),
            ),
            Acquisition::Linking { creat_path, link_path } => Some(
                LockAction::HardLink(creat_path.clone(), link_path.clone()),
            ),
            Acquisition::Abandoning { creat_path, .. } => Some(
                LockAction::Remove(creat_path.clone()),
            ),
            Acquisition::Held(_) => None,
            Acquisition::Failed(_) => None,
        }
    }

    /// Takes note of how the step ended, and moves on. An acquisition that
    /// has ended stays as it is.
    pub fn advance(self, outcome: FsOutcome) -> (next: Self)
        ensures
            next@ == self@.advance(outcome),
            self@.action() is Some ==> next@.steps_left() < self@.steps_left(),
    {
        match self {
            Acquisition::Creating { creat_path, link_path } => match outcome {
                FsOutcome::Done => Acquisition::Linking { creat_path, link_path },
                FsOutcome::AlreadyExists => Acquisition::Failed(LockError::AlreadyLocked),
                FsOutcome::Failed => Acquisition::Failed(LockError::Io),
            },
            Acquisition::Linking { creat_path, link_path } => match outcome {
                FsOutcome::Done => Acquisition::Held(Lock { creat_path, link_path }),
                FsOutcome::AlreadyExists => Acquisition::Abandoning {
                    creat_path,
                    error: LockError::AlreadyLocked,
                },
                FsOutcome::Failed => Acquisition::Abandoning { creat_path, error: LockError::Io },
            },
            Acquisition::Abandoning { creat_path, error } => Acquisition::Failed(error),
            Acquisition::Held(lock) => Acquisition::Held(lock),
            Acquisition::Failed(error) => Acquisition::Failed(error),
        }
    }

    /// The lock or the error that the acquisition ended with, or nothing
    /// while it has a step to take.
    pub fn into_result(self) -> (r: Option<Result<Lock, LockError>>)
        ensures
            result_view(r) == self@.result(),
    {
        match self {
            Acquisition::Held(lock) => Some(Ok(lock)),
            Acquisition::Failed(error) => Some(Err(error)),
            _ => None,
        }
    }
}

/// What a step does to a directory that creates files and links atomically,
/// and how it ends there. The directory is the set of the names in it.
///
/// A file is created where its name is free. A link is made where its name
/// is free and the file to link to is there. A file is removed where it is
/// there.
pub open spec fn perform(dir: Set<Seq<char>>, action: ActionView) -> (Set<Seq<char>>, FsOutcome) {
    match action {
        ActionView::CreateExclusive(path) => if dir.contains(path) {
            (dir, FsOutcome::AlreadyExists)
        } else {
            (dir.insert(path), FsOutcome::Done)
        },
        ActionView::HardLink(from, to) => if !dir.contains(from) {
            (dir, FsOutcome::Failed)
        } else if dir.contains(to) {
            (dir, FsOutcome::AlreadyExists)
        } else {
            (dir.insert(to), FsOutcome::Done)
        },
        ActionView::Remove(path) => if dir.contains(path) {
            (dir.remove(path), FsOutcome::Done)
        } else {
            (dir, FsOutcome::Failed)
        },
    }
}

/// The directory and the acquisition after every step of the acquisition
/// has been taken on `dir`.
pub open spec fn run(dir: Set<Seq<char>>, state: AcquisitionView) -> (
    Set<Seq<char>>,
    AcquisitionView,
)
    decreases state.steps_left(),
{
    match state.action() {
        Some(action) => {
            let (next_dir, outcome) = perform(dir, action);
            run(next_dir, state.advance(outcome))
        },
        None => (dir, state),
    }
}

/// The directory and the outcome of a whole acquisition on `dir`, for the
/// target with the file name `name`.
pub open spec fn acquire_on(dir: Set<Seq<char>>, name: Seq<char>) -> (
    Set<Seq<char>>,
    Option<Result<LockView, LockError>>,
) {
    let (after, state) = run(dir, AcquisitionView::begin(Some(name)));
    (after, state.result())
}

/// The directory after the steps that give `lock` up have been taken on
/// `dir`, whatever their outcomes.
pub open spec fn release_on(dir: Set<Seq<char>>, lock: LockView) -> Set<Seq<char>> {
    perform(perform(dir, lock.release()[0]).0, lock.release()[1]).0
}

/// An acquisition succeeds where neither file of the lock is there, and
/// then makes both. Where one is there, it fails as locked and leaves the
/// directory as it found it.
pub proof fn lemma_acquire(dir: Set<Seq<char>>, name: Seq<char>)
    ensures
        acquire_on(dir, name) == if dir.contains(creat_name(name)) || dir.contains(
            link_name(name),
        ) {
            (dir, Some(Err::<LockView, LockError>(LockError::AlreadyLocked)))
        } else {
            (
                dir.insert(creat_name(name)).insert(link_name(name)),
                Some(
                    Ok::<LockView, LockError>(
                        LockView { creat_path: creat_name(name), link_path: link_name(name) },
                    ),
                ),
            )
        },
{
    lemma_names_differ(name);
    reveal_with_fuel(run, 4);
}

/// Two acquisitions of one target exclude each other: while the first is
/// held, the second fails as locked and changes nothing; once the first is
/// given up, the next succeeds.
pub proof fn lemma_mutual_exclusion(dir: Set<Seq<char>>, name: Seq<char>)
    requires
        acquire_on(dir, name).1 matches Some(Ok(_)),
    ensures
        ({
            let (held_dir, first) = acquire_on(dir, name);
            let lock = first->0->Ok_0;
            &&& acquire_on(held_dir, name) == (
                held_dir,
                Some(Err::<LockView, LockError>(LockError::AlreadyLocked)),
            )
            &&& release_on(held_dir, lock) == dir
            &&& acquire_on(release_on(held_dir, lock), name).1 matches Some(Ok(_))
        }),
{
    lemma_names_differ(name);
    lemma_acquire(dir, name);
    let creat = creat_name(name);
    let link = link_name(name);
    let held_dir = dir.insert(creat).insert(link);
    lemma_acquire(held_dir, name);
    assert(held_dir.remove(creat).remove(link) =~= dir);
}

/// Giving a lock up a second time changes nothing, and neither does giving
/// up a lock whose files are gone.
pub proof fn lemma_release_idempotent(dir: Set<Seq<char>>, lock: LockView)
    ensures
        release_on(release_on(dir, lock), lock) == release_on(dir, lock),
        !dir.contains(lock.creat_path) && !dir.contains(lock.link_path) ==> release_on(dir, lock)
            == dir,
        !release_on(dir, lock).contains(lock.creat_path),
        !release_on(dir, lock).contains(lock.link_path),
{
}

} // verus!
