use std::collections::BTreeSet;
use xauthority::{Acquisition, FsOutcome, Lock, LockAction, LockError};

fn create(name: &str) -> LockAction {
    LockAction::CreateExclusive(name.to_string())
}

fn link(from: &str, to: &str) -> LockAction {
    LockAction::HardLink(from.to_string(), to.to_string())
}

fn remove(name: &str) -> LockAction {
    LockAction::Remove(name.to_string())
}

/// A directory that creates and links atomically.
fn perform(dir: &mut BTreeSet<String>, action: &LockAction) -> FsOutcome {
    match action {
        LockAction::CreateExclusive(path) => {
            if dir.insert(path.clone()) {
                FsOutcome::Done
            } else {
                FsOutcome::AlreadyExists
            }
        }
        LockAction::HardLink(from, to) => {
            if !dir.contains(from) {
                FsOutcome::Failed
            } else if dir.insert(to.clone()) {
                FsOutcome::Done
            } else {
                FsOutcome::AlreadyExists
            }
        }
        LockAction::Remove(path) => {
            if dir.remove(path) {
                FsOutcome::Done
            } else {
                FsOutcome::Failed
            }
        }
    }
}

fn acquire(dir: &mut BTreeSet<String>, name: &str) -> Result<Lock, LockError> {
    let mut state = Acquisition::begin(Some(name));
    let mut steps = 0;
    while let Some(action) = state.action() {
        let outcome = perform(dir, &action);
        state = state.advance(outcome);
        steps += 1;
        assert!(steps <= 3);
    }
    state.into_result().unwrap()
}

fn release(dir: &mut BTreeSet<String>, lock: &Lock) {
    for action in lock.release() {
        let _ = perform(dir, &action);
    }
}

fn names(dir: &BTreeSet<String>) -> Vec<&str> {
    dir.iter().map(|name| name.as_str()).collect()
}

#[test]
fn acquisition_creates_then_links() {
    let state = Acquisition::begin(Some(".Xauthority"));
    assert_eq!(state.action(), Some(create(".Xauthority-c")));
    assert_eq!(state.into_result(), None);
    let state = Acquisition::begin(Some(".Xauthority")).advance(FsOutcome::Done);
    assert_eq!(state.action(), Some(link(".Xauthority-c", ".Xauthority-l")));
    let state = state.advance(FsOutcome::Done);
    assert_eq!(state.action(), None);
    let lock = state.into_result().unwrap().unwrap();
    assert_eq!(lock.release(), vec![remove(".Xauthority-c"), remove(".Xauthority-l")]);
}

#[test]
fn target_without_file_name_cannot_be_locked() {
    let state = Acquisition::begin(None);
    assert_eq!(state.action(), None);
    assert_eq!(state.into_result(), Some(Err(LockError::InvalidFilename)));
}

#[test]
fn creation_in_the_way_means_locked() {
    let state = Acquisition::begin(Some("auth")).advance(FsOutcome::AlreadyExists);
    assert_eq!(state.action(), None);
    assert_eq!(state.into_result(), Some(Err(LockError::AlreadyLocked)));
}

#[test]
fn creation_refused_is_an_io_error() {
    let state = Acquisition::begin(Some("auth")).advance(FsOutcome::Failed);
    assert_eq!(state.action(), None);
    assert_eq!(state.into_result(), Some(Err(LockError::Io)));
}

#[test]
fn link_in_the_way_means_locked_after_cleanup() {
    let state =
        Acquisition::begin(Some("auth")).advance(FsOutcome::Done).advance(FsOutcome::AlreadyExists);
    assert_eq!(state.action(), Some(remove("auth-c")));
    assert_eq!(state.into_result(), None);
    for outcome in [FsOutcome::Done, FsOutcome::Failed, FsOutcome::AlreadyExists] {
        let state = Acquisition::begin(Some("auth"))
            .advance(FsOutcome::Done)
            .advance(FsOutcome::AlreadyExists)
            .advance(outcome);
        assert_eq!(state.action(), None);
        assert_eq!(state.into_result(), Some(Err(LockError::AlreadyLocked)));
    }
}

#[test]
fn link_refused_is_an_io_error_after_cleanup() {
    let state =
        Acquisition::begin(Some("auth")).advance(FsOutcome::Done).advance(FsOutcome::Failed);
    assert_eq!(state.action(), Some(remove("auth-c")));
    let state = state.advance(FsOutcome::Done);
    assert_eq!(state.into_result(), Some(Err(LockError::Io)));
}

#[test]
fn ended_acquisition_stays_as_it_is() {
    let held = Acquisition::begin(Some("a")).advance(FsOutcome::Done).advance(FsOutcome::Done);
    let again = Acquisition::begin(Some("a"))
        .advance(FsOutcome::Done)
        .advance(FsOutcome::Done)
        .advance(FsOutcome::Failed);
    assert_eq!(held, again);
    let failed = Acquisition::begin(None).advance(FsOutcome::Done);
    assert_eq!(failed.into_result(), Some(Err(LockError::InvalidFilename)));
}

#[test]
fn lock_makes_both_files_and_release_removes_them() {
    let mut dir = BTreeSet::new();
    dir.insert("auth".to_string());
    let lock = acquire(&mut dir, "auth").unwrap();
    assert_eq!(names(&dir), vec!["auth", "auth-c", "auth-l"]);
    release(&mut dir, &lock);
    assert_eq!(names(&dir), vec!["auth"]);
}

#[test]
fn second_acquisition_fails_while_the_first_is_held() {
    let mut dir = BTreeSet::new();
    let first = acquire(&mut dir, "auth").unwrap();
    assert_eq!(acquire(&mut dir, "auth"), Err(LockError::AlreadyLocked));
    assert_eq!(names(&dir), vec!["auth-c", "auth-l"]);
    release(&mut dir, &first);
    let second = acquire(&mut dir, "auth");
    assert!(second.is_ok());
    assert_eq!(names(&dir), vec!["auth-c", "auth-l"]);
}

#[test]
fn locks_on_different_targets_do_not_collide() {
    let mut dir = BTreeSet::new();
    assert!(acquire(&mut dir, "one").is_ok());
    assert!(acquire(&mut dir, "two").is_ok());
    assert_eq!(names(&dir), vec!["one-c", "one-l", "two-c", "two-l"]);
}

#[test]
fn stale_link_blocks_and_the_attempt_leaves_nothing() {
    let mut dir = BTreeSet::new();
    dir.insert("auth-l".to_string());
    assert_eq!(acquire(&mut dir, "auth"), Err(LockError::AlreadyLocked));
    assert_eq!(names(&dir), vec!["auth-l"]);
}

#[test]
fn release_of_a_lock_whose_files_are_gone_does_nothing() {
    let mut dir = BTreeSet::new();
    let lock = acquire(&mut dir, "auth").unwrap();
    dir.clear();
    release(&mut dir, &lock);
    assert_eq!(names(&dir), Vec::<&str>::new());
    release(&mut dir, &lock);
    assert_eq!(names(&dir), Vec::<&str>::new());
}

#[test]
fn release_twice_is_release_once() {
    let mut dir = BTreeSet::new();
    dir.insert("other".to_string());
    let lock = acquire(&mut dir, "auth").unwrap();
    release(&mut dir, &lock);
    release(&mut dir, &lock);
    assert_eq!(names(&dir), vec!["other"]);
}
