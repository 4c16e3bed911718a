use git_share_obj::hardlink::{
    backup_path, is_same_filesystem, is_same_inode, pending_action, step, ActionOutcome,
    FileIdentity, ReplaceAction, ReplaceResult, ReplaceState,
};

/// Drives the machine with the given observations and returns its
/// result, panicking if the observations do not finish the protocol.
fn drive(events: Vec<ActionOutcome>) -> (ReplaceResult, Vec<ReplaceAction>) {
    let mut state = ReplaceState::CheckingFilesystem;
    let mut actions = Vec::new();
    for ev in events {
        let action = pending_action(&state).expect("machine finished early");
        actions.push(action);
        state = step(state, ev);
    }
    assert!(pending_action(&state).is_none(), "machine not finished");
    match state {
        ReplaceState::Done { result } => (result, actions),
        _ => unreachable!(),
    }
}

#[test]
fn test_identity_checks() {
    let a = FileIdentity { device: 1, inode: 10 };
    let b = FileIdentity { device: 1, inode: 11 };
    let c = FileIdentity { device: 2, inode: 10 };
    let d = FileIdentity { device: 1, inode: 10 };

    assert!(is_same_filesystem(&a, &b));
    assert!(!is_same_filesystem(&a, &c));
    assert!(!is_same_inode(&a, &b));
    assert!(!is_same_inode(&a, &c));
    assert!(is_same_inode(&a, &d));
}

#[test]
fn test_backup_path_appends_suffix() {
    assert_eq!(
        backup_path("repo/.git/objects/ab/target"),
        "repo/.git/objects/ab/target.git-share-obj.bak"
    );
}

#[test]
fn test_replace_success_path() {
    let (result, actions) = drive(vec![
        ActionOutcome::Holds,
        ActionOutcome::DoesNotHold,
        ActionOutcome::Succeeded,
        ActionOutcome::Succeeded,
        ActionOutcome::Succeeded,
    ]);
    assert_eq!(result, ReplaceResult::Replaced);
    assert_eq!(
        actions,
        vec![
            ReplaceAction::CheckSameFilesystem,
            ReplaceAction::CheckSameInode,
            ReplaceAction::RenameTargetToBackup,
            ReplaceAction::LinkSourceToTarget,
            ReplaceAction::RemoveBackup,
        ]
    );
}

#[test]
fn test_replace_cross_filesystem_touches_nothing() {
    let (result, actions) = drive(vec![ActionOutcome::DoesNotHold]);
    assert_eq!(result, ReplaceResult::CrossFilesystem);
    assert_eq!(actions, vec![ReplaceAction::CheckSameFilesystem]);
}

#[test]
fn test_replace_already_linked_touches_nothing() {
    let (result, actions) = drive(vec![ActionOutcome::Holds, ActionOutcome::Holds]);
    assert_eq!(result, ReplaceResult::AlreadyLinked);
    assert_eq!(
        actions,
        vec![ReplaceAction::CheckSameFilesystem, ReplaceAction::CheckSameInode]
    );
}

#[test]
fn test_replace_link_failure_rolls_back() {
    let (result, actions) = drive(vec![
        ActionOutcome::Holds,
        ActionOutcome::DoesNotHold,
        ActionOutcome::Succeeded,
        ActionOutcome::Failed("permission denied".to_string()),
        ActionOutcome::Succeeded,
        ActionOutcome::Succeeded,
    ]);
    match result {
        ReplaceResult::RolledBack(reason) => {
            assert_eq!(
                reason,
                "failed to create hardlink: permission denied (rolled back)"
            );
        }
        other => panic!("expected RolledBack, got {:?}", other),
    }
    assert_eq!(
        actions,
        vec![
            ReplaceAction::CheckSameFilesystem,
            ReplaceAction::CheckSameInode,
            ReplaceAction::RenameTargetToBackup,
            ReplaceAction::LinkSourceToTarget,
            ReplaceAction::RemoveLinkArtifact,
            ReplaceAction::RenameBackupToTarget,
        ]
    );
}

#[test]
fn test_replace_rollback_failure_is_terminal() {
    let (result, _) = drive(vec![
        ActionOutcome::Holds,
        ActionOutcome::DoesNotHold,
        ActionOutcome::Succeeded,
        ActionOutcome::Failed("link failed".to_string()),
        ActionOutcome::Succeeded,
        ActionOutcome::Failed("rename failed".to_string()),
    ]);
    match result {
        ReplaceResult::RollbackFailed(reason) => {
            assert_eq!(
                reason,
                "failed to create hardlink: link failed; rollback rename failed: rename failed"
            );
        }
        other => panic!("expected RollbackFailed, got {:?}", other),
    }
}

#[test]
fn test_replace_precheck_failure_is_error() {
    let (result, _) = drive(vec![ActionOutcome::Failed("no such file".to_string())]);
    assert_eq!(result, ReplaceResult::Error("no such file".to_string()));
}

#[test]
fn test_replace_rename_failure_is_error() {
    let (result, _) = drive(vec![
        ActionOutcome::Holds,
        ActionOutcome::DoesNotHold,
        ActionOutcome::Failed("read-only".to_string()),
    ]);
    assert_eq!(
        result,
        ReplaceResult::Error("failed to rename target to backup: read-only".to_string())
    );
}

#[test]
fn test_replace_backup_removal_failure_is_error() {
    let (result, _) = drive(vec![
        ActionOutcome::Holds,
        ActionOutcome::DoesNotHold,
        ActionOutcome::Succeeded,
        ActionOutcome::Succeeded,
        ActionOutcome::Failed("busy".to_string()),
    ]);
    assert_eq!(
        result,
        ReplaceResult::Error("failed to remove backup file: busy".to_string())
    );
}
