//! The crash-safe hardlink replacement protocol.
//!
//! The protocol itself is a state machine: `pending_action` names the
//! filesystem step the caller must carry out next, and `step` takes
//! the machine forward on what the caller observed.  The caller owns
//! every filesystem call; the machine owns every decision, so that a
//! replacement never reaches a mutating step before both prechecks
//! pass, and every failure after the backup rename drives the
//! rollback.

use vstd::prelude::*;
use vstd::string::StrSliceExecFns;
use vstd::string::StringExecFns;

verus! {

/// The result of one replacement.
#[derive(Debug, PartialEq)]
pub enum ReplaceResult {
    /// The target is now a hardlink to the source; the backup is gone.
    Replaced,
    /// Source and target were already the same physical file.
    AlreadyLinked,
    /// Source and target sit on different filesystems; nothing was
    /// touched.
    CrossFilesystem,
    /// Creating the hardlink failed, and the original target file was
    /// restored from the backup.
    RolledBack(String),
    /// Creating the hardlink failed, and restoring the backup failed
    /// too: the target path holds no file, but the original file still
    /// stands at the backup path.
    RollbackFailed(String),
    /// Some other step failed before or after the critical window.
    Error(String),
}

/// The filesystem identity of one path: device and inode.
#[derive(Debug, Clone, Copy, PartialEq, Eq, Structural)]
pub struct FileIdentity {
    /// Device identifier.
    pub device: u64,
    /// Inode number.
    pub inode: u64,
}

/// Whether the two files sit on the same filesystem.
pub fn is_same_filesystem(a: &FileIdentity, b: &FileIdentity) -> (r: bool)
    ensures
        r == (a.device == b.device),
{
    a.device == b.device
}

/// Whether the two files are already the same physical file.
pub fn is_same_inode(a: &FileIdentity, b: &FileIdentity) -> (r: bool)
    ensures
        r == (a.device == b.device && a.inode == b.inode),
{
    a.device == b.device && a.inode == b.inode
}

/// The sibling path the target is renamed to while the new link is
/// created.
pub fn backup_path(target: &str) -> (r: String)
    ensures
        r@ == target@ + ".git-share-obj.bak"@,
{
    String::from_str(target).concat(".git-share-obj.bak")
}

/// One filesystem step of the protocol, carried out by the caller.
#[derive(Debug, Clone, Copy, PartialEq, Eq, Structural)]
pub enum ReplaceAction {
    /// Observe whether source and target are on one filesystem.
    CheckSameFilesystem,
    /// Observe whether source and target are one physical file.
    CheckSameInode,
    /// Rename the target to its backup path.
    RenameTargetToBackup,
    /// Create a hardlink to the source at the target path.
    LinkSourceToTarget,
    /// Remove a partial regular file left at the target, if any.
    RemoveLinkArtifact,
    /// Rename the backup back to the target path.
    RenameBackupToTarget,
    /// Remove the backup file.
    RemoveBackup,
}

/// What the caller observed when carrying an action out: a check
/// holds or does not hold; a mutation succeeds or fails with a reason.
#[derive(Debug)]
pub enum ActionOutcome {
    Holds,
    DoesNotHold,
    Succeeded,
    Failed(String),
}

/// The state of one replacement, from the first check to its result.
#[derive(Debug)]
pub enum ReplaceState {
    CheckingFilesystem,
    CheckingInode,
    Renaming,
    Linking,
    RemovingArtifact { link_error: String },
    RollingBack { link_error: String },
    RemovingBackup,
    Done { result: ReplaceResult },
}

/// The protocol phases, without the accumulated error text.
pub enum ProtocolPhase {
    CheckingFilesystem,
    CheckingInode,
    Renaming,
    Linking,
    RemovingArtifact,
    RollingBack,
    RemovingBackup,
    DoneReplaced,
    DoneAlreadyLinked,
    DoneCrossFilesystem,
    DoneRolledBack,
    DoneRollbackFailed,
    DoneError,
}

/// The kinds of observation, without the error text.
pub enum EventKind {
    Holds,
    DoesNotHold,
    Succeeded,
    Failed,
}

/// The phase of a state.
pub open spec fn phase_of(s: ReplaceState) -> ProtocolPhase {
    match s {
        ReplaceState::CheckingFilesystem => ProtocolPhase::CheckingFilesystem,
        ReplaceState::CheckingInode => ProtocolPhase::CheckingInode,
        ReplaceState::Renaming => ProtocolPhase::Renaming,
        ReplaceState::Linking => ProtocolPhase::Linking,
        ReplaceState::RemovingArtifact { .. } => ProtocolPhase::RemovingArtifact,
        ReplaceState::RollingBack { .. } => ProtocolPhase::RollingBack,
        ReplaceState::RemovingBackup => ProtocolPhase::RemovingBackup,
        ReplaceState::Done { result } => match result {
            ReplaceResult::Replaced => ProtocolPhase::DoneReplaced,
            ReplaceResult::AlreadyLinked => ProtocolPhase::DoneAlreadyLinked,
            ReplaceResult::CrossFilesystem => ProtocolPhase::DoneCrossFilesystem,
            ReplaceResult::RolledBack(_) => ProtocolPhase::DoneRolledBack,
            ReplaceResult::RollbackFailed(_) => ProtocolPhase::DoneRollbackFailed,
            ReplaceResult::Error(_) => ProtocolPhase::DoneError,
        },
    }
}

/// The kind of an observation.
pub open spec fn event_kind_of(ev: ActionOutcome) -> EventKind {
    match ev {
        ActionOutcome::Holds => EventKind::Holds,
        ActionOutcome::DoesNotHold => EventKind::DoesNotHold,
        ActionOutcome::Succeeded => EventKind::Succeeded,
        ActionOutcome::Failed(_) => EventKind::Failed,
    }
}

/// The action pending in a phase, or `None` once the protocol is done.
pub open spec fn spec_pending_action(p: ProtocolPhase) -> Option<ReplaceAction> {
    match p {
        ProtocolPhase::CheckingFilesystem => Some(ReplaceAction::CheckSameFilesystem),
        ProtocolPhase::CheckingInode => Some(ReplaceAction::CheckSameInode),
        ProtocolPhase::Renaming => Some(ReplaceAction::RenameTargetToBackup),
        ProtocolPhase::Linking => Some(ReplaceAction::LinkSourceToTarget),
        ProtocolPhase::RemovingArtifact => Some(ReplaceAction::RemoveLinkArtifact),
        ProtocolPhase::RollingBack => Some(ReplaceAction::RenameBackupToTarget),
        ProtocolPhase::RemovingBackup => Some(ReplaceAction::RemoveBackup),
        _ => None,
    }
}

/// Whether an action only observes the filesystem.
pub open spec fn is_check(a: ReplaceAction) -> bool {
    a == ReplaceAction::CheckSameFilesystem || a == ReplaceAction::CheckSameInode
}

/// The observations an action can produce: a check holds, does not
/// hold, or fails; every other action succeeds or fails.
pub open spec fn event_fits(p: ProtocolPhase, ev: EventKind) -> bool {
    match spec_pending_action(p) {
        None => false,
        Some(a) => if is_check(a) {
            ev is Holds || ev is DoesNotHold || ev is Failed
        } else {
            ev is Succeeded || ev is Failed
        },
    }
}

/// The transition table of the protocol, over phases.
pub open spec fn phase_step(p: ProtocolPhase, ev: EventKind) -> ProtocolPhase {
    match (p, ev) {
        (ProtocolPhase::CheckingFilesystem, EventKind::Holds) => ProtocolPhase::CheckingInode,
        (ProtocolPhase::CheckingFilesystem, EventKind::DoesNotHold)
            => ProtocolPhase::DoneCrossFilesystem,
        (ProtocolPhase::CheckingFilesystem, EventKind::Failed) => ProtocolPhase::DoneError,
        (ProtocolPhase::CheckingInode, EventKind::Holds) => ProtocolPhase::DoneAlreadyLinked,
        (ProtocolPhase::CheckingInode, EventKind::DoesNotHold) => ProtocolPhase::Renaming,
        (ProtocolPhase::CheckingInode, EventKind::Failed) => ProtocolPhase::DoneError,
        (ProtocolPhase::Renaming, EventKind::Succeeded) => ProtocolPhase::Linking,
        (ProtocolPhase::Renaming, EventKind::Failed) => ProtocolPhase::DoneError,
        (ProtocolPhase::Linking, EventKind::Succeeded) => ProtocolPhase::RemovingBackup,
        (ProtocolPhase::Linking, EventKind::Failed) => ProtocolPhase::RemovingArtifact,
        (ProtocolPhase::RemovingArtifact, EventKind::Succeeded) => ProtocolPhase::RollingBack,
        (ProtocolPhase::RemovingArtifact, EventKind::Failed) => ProtocolPhase::RollingBack,
        (ProtocolPhase::RollingBack, EventKind::Succeeded) => ProtocolPhase::DoneRolledBack,
        (ProtocolPhase::RollingBack, EventKind::Failed) => ProtocolPhase::DoneRollbackFailed,
        (ProtocolPhase::RemovingBackup, EventKind::Succeeded) => ProtocolPhase::DoneReplaced,
        (ProtocolPhase::RemovingBackup, EventKind::Failed) => ProtocolPhase::DoneError,
        _ => p,
    }
}

/// The filesystem step to carry out next, or `None` when the
/// replacement has reached its result.
pub fn pending_action(s: &ReplaceState) -> (r: Option<ReplaceAction>)
    ensures
        r == spec_pending_action(phase_of(*s)),
{
    match s {
        ReplaceState::CheckingFilesystem => Some(ReplaceAction::CheckSameFilesystem),
        ReplaceState::CheckingInode => Some(ReplaceAction::CheckSameInode),
        ReplaceState::Renaming => Some(ReplaceAction::RenameTargetToBackup),
        ReplaceState::Linking => Some(ReplaceAction::LinkSourceToTarget),
        ReplaceState::RemovingArtifact { .. } => Some(ReplaceAction::RemoveLinkArtifact),
        ReplaceState::RollingBack { .. } => Some(ReplaceAction::RenameBackupToTarget),
        ReplaceState::RemovingBackup => Some(ReplaceAction::RemoveBackup),
        ReplaceState::Done { .. } => None,
    }
}

/// Takes the protocol one step forward on what the caller observed.
///
/// The phase moves along the transition table; the clauses below pin
/// the error text carried into each terminal result.
pub fn step(s: ReplaceState, ev: ActionOutcome) -> (r: ReplaceState)
    requires
        event_fits(phase_of(s), event_kind_of(ev)),
    ensures
        phase_of(r) == phase_step(phase_of(s), event_kind_of(ev)),
        s is CheckingFilesystem ==> (ev matches ActionOutcome::Failed(e) ==> (r matches
            ReplaceState::Done { result } && result matches ReplaceResult::Error(m) && m@ == e@)),
        s is CheckingInode ==> (ev matches ActionOutcome::Failed(e) ==> (r matches
            ReplaceState::Done { result } && result matches ReplaceResult::Error(m) && m@ == e@)),
        s is Renaming ==> (ev matches ActionOutcome::Failed(e) ==> (r matches ReplaceState::Done {
            result,
        } && result matches ReplaceResult::Error(m) && m@ == "failed to rename target to backup: "@
            + e@)),
        s is Linking ==> (ev matches ActionOutcome::Failed(e) ==> (r matches
            ReplaceState::RemovingArtifact { link_error } && link_error@ == e@)),
        s matches ReplaceState::RemovingArtifact { link_error } ==> (r matches
            ReplaceState::RollingBack { link_error: le } && le@ == link_error@),
        s matches ReplaceState::RollingBack { link_error } ==> (ev is Succeeded ==> (r matches
            ReplaceState::Done { result } && result matches ReplaceResult::RolledBack(m) && m@
            == "failed to create hardlink: "@ + link_error@ + " (rolled back)"@)),
        s matches ReplaceState::RollingBack { link_error } ==> (ev matches ActionOutcome::Failed(
            e2,
        ) ==> (r matches ReplaceState::Done { result } && result
            matches ReplaceResult::RollbackFailed(m) && m@ == "failed to create hardlink: "@
            + link_error@ + "; rollback rename failed: "@ + e2@)),
        s is RemovingBackup ==> (ev matches ActionOutcome::Failed(e) ==> (r matches
            ReplaceState::Done { result } && result matches ReplaceResult::Error(m) && m@
            == "failed to remove backup file: "@ + e@)),
{
    match (s, ev) {
        (ReplaceState::CheckingFilesystem, ActionOutcome::Holds) => ReplaceState::CheckingInode,
        (ReplaceState::CheckingFilesystem, ActionOutcome::DoesNotHold) => ReplaceState::Done {
            result: ReplaceResult::CrossFilesystem,
        },
        (ReplaceState::CheckingFilesystem, ActionOutcome::Failed(e)) => ReplaceState::Done {
            result: ReplaceResult::Error(e),
        },
        (ReplaceState::CheckingInode, ActionOutcome::Holds) => ReplaceState::Done {
            result: ReplaceResult::AlreadyLinked,
        },
        (ReplaceState::CheckingInode, ActionOutcome::DoesNotHold) => ReplaceState::Renaming,
        (ReplaceState::CheckingInode, ActionOutcome::Failed(e)) => ReplaceState::Done {
            result: ReplaceResult::Error(e),
        },
        (ReplaceState::Renaming, ActionOutcome::Succeeded) => ReplaceState::Linking,
        (ReplaceState::Renaming, ActionOutcome::Failed(e)) => ReplaceState::Done {
            result: ReplaceResult::Error(
                String::from_str("failed to rename target to backup: ").concat(e.as_str()),
            ),
        },
        (ReplaceState::Linking, ActionOutcome::Succeeded) => ReplaceState::RemovingBackup,
        (ReplaceState::Linking, ActionOutcome::Failed(e)) => ReplaceState::RemovingArtifact {
            link_error: e,
        },
        (ReplaceState::RemovingArtifact { link_error }, _) => ReplaceState::RollingBack {
            link_error,
        },
        (ReplaceState::RollingBack { link_error }, ActionOutcome::Succeeded) => ReplaceState::Done {
            result: ReplaceResult::RolledBack(
                String::from_str("failed to create hardlink: ").concat(link_error.as_str()).concat(
                    " (rolled back)",
                ),
            ),
        },
        (ReplaceState::RollingBack { link_error }, ActionOutcome::Failed(e2)) => ReplaceState::Done {
            result: ReplaceResult::RollbackFailed(
                String::from_str("failed to create hardlink: ").concat(link_error.as_str()).concat(
                    "; rollback rename failed: ",
                ).concat(e2.as_str()),
            ),
        },
        (ReplaceState::RemovingBackup, ActionOutcome::Succeeded) => ReplaceState::Done {
            result: ReplaceResult::Replaced,
        },
        (ReplaceState::RemovingBackup, ActionOutcome::Failed(e)) => ReplaceState::Done {
            result: ReplaceResult::Error(
                String::from_str("failed to remove backup file: ").concat(e.as_str()),
            ),
        },
        (s2, _) => s2,
    }
}

/// An abstract view of the three paths one replacement touches.  Each
/// path holds some file, named by an abstract identifier, or nothing.
pub struct FsModel {
    /// The file at the source path.
    pub source: Option<int>,
    /// The file at the target path.
    pub target: Option<int>,
    /// The file at the backup path.
    pub backup: Option<int>,
}

/// The effect of one protocol step on the three paths.  A failed
/// rename or removal changes nothing; a failed link may leave a
/// partial file at the target, which the following artifact-removal
/// step deletes, so the two are modelled together as leaving the
/// target empty.
pub open spec fn model_apply(p: ProtocolPhase, fs: FsModel, ev: EventKind) -> FsModel {
    match (p, ev) {
        (ProtocolPhase::Renaming, EventKind::Succeeded) => FsModel {
            target: None,
            backup: fs.target,
            ..fs
        },
        (ProtocolPhase::Linking, EventKind::Succeeded) => FsModel { target: fs.source, ..fs },
        (ProtocolPhase::Linking, EventKind::Failed) => FsModel { target: None, ..fs },
        (ProtocolPhase::RollingBack, EventKind::Succeeded) => FsModel {
            target: fs.backup,
            backup: None,
            ..fs
        },
        (ProtocolPhase::RemovingBackup, EventKind::Succeeded) => FsModel { backup: None, ..fs },
        _ => fs,
    }
}

/// Runs the protocol over a sequence of observations, tracking the
/// modelled filesystem, and stops at the first terminal phase.
pub open spec fn run_protocol(p: ProtocolPhase, fs: FsModel, evs: Seq<EventKind>) -> (
    ProtocolPhase,
    FsModel,
)
    decreases evs.len(),
{
    if evs.len() == 0 || spec_pending_action(p) is None {
        (p, fs)
    } else {
        run_protocol(phase_step(p, evs[0]), model_apply(p, fs, evs[0]), evs.drop_first())
    }
}

/// What holds of the modelled filesystem in every phase, relative to
/// the initial state `fs0`.
pub open spec fn protocol_invariant(p: ProtocolPhase, fs: FsModel, fs0: FsModel) -> bool {
    match p {
        ProtocolPhase::CheckingFilesystem => fs == fs0,
        ProtocolPhase::CheckingInode => fs == fs0,
        ProtocolPhase::Renaming => fs == fs0,
        ProtocolPhase::Linking => fs.source == fs0.source && fs.backup == fs0.target
            && fs.target is None,
        ProtocolPhase::RemovingArtifact => fs.source == fs0.source && fs.backup == fs0.target
            && fs.target is None,
        ProtocolPhase::RollingBack => fs.source == fs0.source && fs.backup == fs0.target
            && fs.target is None,
        ProtocolPhase::RemovingBackup => fs.source == fs0.source && fs.backup == fs0.target
            && fs.target == fs0.source,
        ProtocolPhase::DoneReplaced => fs.source == fs0.source && fs.backup is None && fs.target
            == fs0.source,
        ProtocolPhase::DoneAlreadyLinked => fs == fs0,
        ProtocolPhase::DoneCrossFilesystem => fs == fs0,
        ProtocolPhase::DoneRolledBack => fs.source == fs0.source && fs.backup is None && fs.target
            == fs0.target,
        ProtocolPhase::DoneRollbackFailed => fs.source == fs0.source && fs.backup == fs0.target
            && fs.target is None,
        ProtocolPhase::DoneError => fs == fs0 || (fs.source == fs0.source && fs.backup
            == fs0.target && fs.target == fs0.source),
    }
}

proof fn lemma_protocol_invariant_step(p: ProtocolPhase, fs: FsModel, fs0: FsModel, ev: EventKind)
    requires
        protocol_invariant(p, fs, fs0),
    ensures
        protocol_invariant(phase_step(p, ev), model_apply(p, fs, ev), fs0),
{
}

/// The invariant holds at the end of every run that starts in it.
pub proof fn lemma_run_protocol_invariant(
    p: ProtocolPhase,
    fs: FsModel,
    fs0: FsModel,
    evs: Seq<EventKind>,
)
    requires
        protocol_invariant(p, fs, fs0),
    ensures
        protocol_invariant(run_protocol(p, fs, evs).0, run_protocol(p, fs, evs).1, fs0),
    decreases evs.len(),
{
    if evs.len() != 0 && !(spec_pending_action(p) is None) {
        lemma_protocol_invariant_step(p, fs, fs0, evs[0]);
        lemma_run_protocol_invariant(
            phase_step(p, evs[0]),
            model_apply(p, fs, evs[0]),
            fs0,
            evs.drop_first(),
        );
    }
}

/// The protocol never abandons the target.  Whatever the caller
/// observes, at every terminal outcome but `RollbackFailed` a file
/// stands at the target path; at `RollbackFailed` the original target
/// file still stands at the backup path.
pub proof fn lemma_replace_never_loses_target(fs0: FsModel, evs: Seq<EventKind>)
    requires
        fs0.target is Some,
        fs0.source is Some,
    ensures
        ({
            let (p, fs) = run_protocol(ProtocolPhase::CheckingFilesystem, fs0, evs);
            &&& p is DoneReplaced ==> fs.target == fs0.source && fs.backup is None
            &&& p is DoneAlreadyLinked ==> fs == fs0
            &&& p is DoneCrossFilesystem ==> fs == fs0
            &&& p is DoneRolledBack ==> fs.target == fs0.target && fs.backup is None
            &&& p is DoneError ==> fs.target is Some
            &&& p is DoneRollbackFailed ==> fs.backup == fs0.target
            &&& fs.source == fs0.source
        }),
{
    lemma_run_protocol_invariant(ProtocolPhase::CheckingFilesystem, fs0, fs0, evs);
}

/// A cross-filesystem pair is refused before anything is touched: if
/// the first check observes distinct filesystems, the outcome is
/// `CrossFilesystem` and the modelled filesystem is unchanged.
pub proof fn lemma_cross_filesystem_mutates_nothing(fs0: FsModel, evs: Seq<EventKind>)
    requires
        evs.len() >= 1,
        evs[0] is DoesNotHold,
    ensures
        run_protocol(ProtocolPhase::CheckingFilesystem, fs0, evs) == (
            ProtocolPhase::DoneCrossFilesystem,
            fs0,
        ),
{
    assert(run_protocol(ProtocolPhase::CheckingFilesystem, fs0, evs) == run_protocol(
        ProtocolPhase::DoneCrossFilesystem,
        fs0,
        evs.drop_first(),
    ));
}

/// An already-linked pair is recognised before anything is touched: if
/// both checks hold, the outcome is `AlreadyLinked` and the modelled
/// filesystem is unchanged.
pub proof fn lemma_already_linked_mutates_nothing(fs0: FsModel, evs: Seq<EventKind>)
    requires
        evs.len() >= 2,
        evs[0] is Holds,
        evs[1] is Holds,
    ensures
        run_protocol(ProtocolPhase::CheckingFilesystem, fs0, evs) == (
            ProtocolPhase::DoneAlreadyLinked,
            fs0,
        ),
{
    assert(run_protocol(ProtocolPhase::CheckingFilesystem, fs0, evs) == run_protocol(
        ProtocolPhase::CheckingInode,
        fs0,
        evs.drop_first(),
    ));
    assert(evs.drop_first()[0] is Holds);
    assert(run_protocol(ProtocolPhase::CheckingInode, fs0, evs.drop_first()) == run_protocol(
        ProtocolPhase::DoneAlreadyLinked,
        fs0,
        evs.drop_first().drop_first(),
    ));
}

/// A failed hardlink creation is rolled back: when both checks pass,
/// the backup rename succeeds, the link fails, and the rollback rename
/// succeeds, the outcome is `RolledBack` and the original target file
/// stands at the target path again, with no backup left.
pub proof fn lemma_link_failure_rolls_back(fs0: FsModel, evs: Seq<EventKind>)
    requires
        evs == seq![
            EventKind::Holds,
            EventKind::DoesNotHold,
            EventKind::Succeeded,
            EventKind::Failed,
            EventKind::Succeeded,
            EventKind::Succeeded,
        ],
    ensures
        ({
            let (p, fs) = run_protocol(ProtocolPhase::CheckingFilesystem, fs0, evs);
            &&& p is DoneRolledBack
            &&& fs.target == fs0.target
            &&& fs.backup is None
            &&& fs.source == fs0.source
        }),
{
    let e1 = evs.drop_first();
    let e2 = e1.drop_first();
    let e3 = e2.drop_first();
    let e4 = e3.drop_first();
    let e5 = e4.drop_first();
    let fs2 = FsModel { target: None, backup: fs0.target, ..fs0 };
    assert(e1[0] == evs[1] && e1.len() == 5);
    assert(e2[0] == evs[2] && e2.len() == 4);
    assert(e3[0] == evs[3] && e3.len() == 3);
    assert(e4[0] == evs[4] && e4.len() == 2);
    assert(e5[0] == evs[5] && e5.len() == 1);
    assert(run_protocol(ProtocolPhase::CheckingFilesystem, fs0, evs) == run_protocol(
        ProtocolPhase::CheckingInode,
        fs0,
        e1,
    ));
    assert(run_protocol(ProtocolPhase::CheckingInode, fs0, e1) == run_protocol(
        ProtocolPhase::Renaming,
        fs0,
        e2,
    ));
    assert(run_protocol(ProtocolPhase::Renaming, fs0, e2) == run_protocol(
        ProtocolPhase::Linking,
        fs2,
        e3,
    ));
    assert(run_protocol(ProtocolPhase::Linking, fs2, e3) == run_protocol(
        ProtocolPhase::RemovingArtifact,
        fs2,
        e4,
    ));
    assert(run_protocol(ProtocolPhase::RemovingArtifact, fs2, e4) == run_protocol(
        ProtocolPhase::RollingBack,
        fs2,
        e5,
    ));
    assert(run_protocol(ProtocolPhase::RollingBack, fs2, e5) == run_protocol(
        ProtocolPhase::DoneRolledBack,
        FsModel { target: fs0.target, backup: None, ..fs2 },
        e5.drop_first(),
    ));
}

} // verus!
