use std::collections::{BTreeMap, BTreeSet};

use autocommit::clock::Timestamp;
use autocommit::config::Config;
use autocommit::error::{IoFailure, SyncError};
use autocommit::event::ChangeEvent;
use autocommit::git::{GitAction, GitOutcome, ObjectId};
use autocommit::mirror::{CopySettings, FsCommand};
use autocommit::sync_loop::{Action, Input, Stage, Step, SyncLoop, QUIESCENCE_MS};

/// A file system and a repository in memory, which carry out what the loop
/// asks for.
struct World {
    files: BTreeMap<String, String>,
    dirs: BTreeSet<String>,
    head: Option<String>,
    commits: Vec<(String, String, String)>,
    stagings: usize,
    pushes: Vec<(String, String)>,
    stage_works: bool,
    commit_works: bool,
    push_works: bool,
    denied: BTreeSet<String>,
    trace: Vec<String>,
    failures: Vec<SyncError>,
    rejected: usize,
    committed: Vec<String>,
}

fn parent_of(path: &str) -> Option<&str> {
    match path.rfind('/') {
        Some(0) | None => None,
        Some(at) => Some(&path[..at]),
    }
}

fn name_of(path: &str) -> &str {
    match path.rfind('/') {
        Some(at) => &path[at + 1..],
        None => path,
    }
}

impl World {
    fn new() -> World {
        let mut world = World {
            files: BTreeMap::new(),
            dirs: BTreeSet::new(),
            head: Some("c0".to_string()),
            commits: Vec::new(),
            stagings: 0,
            pushes: Vec::new(),
            stage_works: true,
            commit_works: true,
            push_works: true,
            denied: BTreeSet::new(),
            trace: Vec::new(),
            failures: Vec::new(),
            rejected: 0,
            committed: Vec::new(),
        };
        world.make_dirs("/data");
        world.make_dirs("/repo");
        world
    }

    fn make_dirs(&mut self, path: &str) {
        let mut at = Some(path);
        while let Some(dir) = at {
            self.dirs.insert(dir.to_string());
            at = parent_of(dir);
        }
    }

    fn write(&mut self, path: &str, content: &str) {
        if let Some(dir) = parent_of(path) {
            self.make_dirs(dir);
        }
        self.files.insert(path.to_string(), content.to_string());
    }

    fn is_dir(&self, path: &str) -> bool {
        self.dirs.contains(path)
    }

    fn has(&self, path: &str) -> bool {
        self.dirs.contains(path) || self.files.contains_key(path)
    }

    fn below(&self, dir: &str) -> Vec<String> {
        let prefix = format!("{}/", dir);
        let mut all: Vec<String> =
            self.files.keys().filter(|p| p.starts_with(&prefix)).cloned().collect();
        all.extend(self.dirs.iter().filter(|p| p.starts_with(&prefix)).cloned());
        all
    }

    fn copy_file(&mut self, from: &str, to: &str) -> Result<(), IoFailure> {
        let content = self.files.get(from).cloned().ok_or(IoFailure::NotFound)?;
        match parent_of(to) {
            Some(dir) if !self.dirs.contains(dir) => return Err(IoFailure::NotFound),
            _ => {}
        }
        if self.dirs.contains(to) {
            return Err(IoFailure::Other);
        }
        self.files.insert(to.to_string(), content);
        Ok(())
    }

    fn copy_tree(&mut self, from: &str, into: &str) -> Result<(), IoFailure> {
        if !self.dirs.contains(from) {
            return Err(IoFailure::NotFound);
        }
        let target = format!("{}/{}", into.trim_end_matches('/'), name_of(from));
        self.make_dirs(&target);
        for path in self.below(from) {
            let copy = format!("{}{}", target, &path[from.len()..]);
            if self.dirs.contains(&path) {
                self.make_dirs(&copy);
            } else {
                let content = self.files[&path].clone();
                self.files.insert(copy, content);
            }
        }
        Ok(())
    }

    fn remove_tree(&mut self, path: &str) -> Result<(), IoFailure> {
        if !self.dirs.contains(path) {
            return Err(IoFailure::NotFound);
        }
        for entry in self.below(path) {
            self.files.remove(&entry);
            self.dirs.remove(&entry);
        }
        self.dirs.remove(path);
        Ok(())
    }

    fn remove_file(&mut self, path: &str) -> Result<(), IoFailure> {
        match self.files.remove(path) {
            Some(_) => Ok(()),
            None => Err(IoFailure::NotFound),
        }
    }

    fn apply(&mut self, command: &FsCommand) -> Result<(), IoFailure> {
        match command {
            FsCommand::CopyTree { from, into, settings } => {
                assert_eq!(
                    *settings,
                    CopySettings { overwrite: true, skip_exist: false, buffer_size: 64000 }
                );
                self.trace.push(format!("copy tree {} into {}", from, into));
                if self.denied.contains(from) {
                    return Err(IoFailure::PermissionDenied);
                }
                if !self.dirs.contains(from) {
                    return Err(IoFailure::NotFound);
                }
                self.make_dirs(into);
                self.copy_tree(from, into)
            }
            FsCommand::CopyFile { from, to, parent } => {
                self.trace.push(format!("copy file {} to {}", from, to));
                if self.denied.contains(from) {
                    return Err(IoFailure::PermissionDenied);
                }
                if !self.files.contains_key(from) {
                    return Err(IoFailure::NotFound);
                }
                self.make_dirs(parent);
                self.copy_file(from, to)
            }
            FsCommand::RemoveTree { path } => {
                self.trace.push(format!("remove tree {}", path));
                if self.denied.contains(path) {
                    return Err(IoFailure::PermissionDenied);
                }
                self.remove_tree(path)
            }
            FsCommand::RemoveFile { path } => {
                self.trace.push(format!("remove file {}", path));
                if self.denied.contains(path) {
                    return Err(IoFailure::PermissionDenied);
                }
                self.remove_file(path)
            }
        }
    }

    fn repository(&mut self, action: &GitAction) -> GitOutcome {
        match action {
            GitAction::StageAll => {
                self.trace.push("stage".to_string());
                self.stagings += 1;
                if self.stage_works {
                    GitOutcome::Staged(Some(ObjectId::new(format!("t{}", self.stagings))))
                } else {
                    GitOutcome::Staged(None)
                }
            }
            GitAction::ResolveHead => {
                self.trace.push("head".to_string());
                GitOutcome::Head(self.head.clone().map(ObjectId::new))
            }
            GitAction::Commit { tree, parent, message } => {
                self.trace.push(format!("commit {} on {}", tree.hex(), parent.hex()));
                assert_eq!(Some(parent.hex()), self.head);
                if self.commit_works {
                    let name = format!("c{}", self.commits.len() + 1);
                    self.commits.push((name.clone(), parent.hex(), message.clone()));
                    self.head = Some(name.clone());
                    GitOutcome::Committed(Some(ObjectId::new(name)))
                } else {
                    GitOutcome::Committed(None)
                }
            }
            GitAction::Push { remote, refspec } => {
                self.trace.push("push".to_string());
                self.pushes.push((remote.clone(), refspec.clone()));
                GitOutcome::Pushed(self.push_works)
            }
        }
    }

    fn note(&mut self, step: &Step) {
        if let Some(failure) = step.failure {
            self.failures.push(failure);
        }
        self.rejected += step.rejected;
        if let Some(commit) = &step.committed {
            self.committed.push(commit.hex());
        }
    }

    /// Feeds `first` to the loop and carries out what it asks for until it
    /// waits again. Returns the time until which it waits.
    fn run(&mut self, sync: &mut SyncLoop, first: Input) -> Option<u64> {
        let mut step = sync.step(first).expect("the loop takes the input");
        loop {
            self.note(&step);
            let answer = match &step.action {
                Action::Wait { until } => {
                    assert_eq!(sync.stage(), Stage::Idle);
                    return *until;
                }
                Action::Probe { path } => {
                    assert_eq!(sync.stage(), Stage::Probing);
                    Input::Probed { is_dir: self.is_dir(path) }
                }
                Action::Apply { command } => {
                    assert_eq!(sync.stage(), Stage::Applying);
                    Input::Applied { result: self.apply(command) }
                }
                Action::Repo { action } => {
                    assert_eq!(sync.stage(), Stage::Committing);
                    Input::Repo { outcome: self.repository(action) }
                }
            };
            step = sync.step(answer).expect("the loop takes the answer");
        }
    }

    /// One burst: the events arrive from `start` on, a millisecond apart, and
    /// the window passes.
    fn burst(&mut self, sync: &mut SyncLoop, start: u64, events: Vec<ChangeEvent>) {
        let mut now = start;
        for event in events {
            let until = self.run(sync, Input::Notified { event, now });
            assert_eq!(until, Some(start + QUIESCENCE_MS));
            now += 1;
        }
        self.run(sync, Input::Tick { now: start + QUIESCENCE_MS });
    }
}

fn sync_loop() -> SyncLoop {
    SyncLoop::new(Config::new(
        vec!["/data".to_string()],
        "/repo".to_string(),
        "origin".to_string(),
        "refs/heads/master:refs/heads/master".to_string(),
    ))
}

fn created(path: &str) -> ChangeEvent {
    ChangeEvent::Created(path.to_string())
}

fn modified(path: &str) -> ChangeEvent {
    ChangeEvent::Modified(path.to_string())
}

fn removed(path: &str) -> ChangeEvent {
    ChangeEvent::Removed(path.to_string())
}

fn renamed(from: &str, to: &str) -> ChangeEvent {
    ChangeEvent::Renamed(from.to_string(), to.to_string())
}

fn noon() -> Timestamp {
    Timestamp {
        sec: 0,
        min: 0,
        hour: 12,
        mday: 22,
        mon: 2,
        year: 112,
        wday: 4,
        yday: 81,
        isdst: 0,
        utcoff: 0,
        nsec: 0,
    }
}

/// The files below `root`, by their paths relative to it.
fn tree(world: &World, root: &str) -> BTreeMap<String, String> {
    let prefix = format!("{}/", root);
    world
        .files
        .iter()
        .filter(|(path, _)| path.starts_with(&prefix))
        .map(|(path, content)| (path[prefix.len()..].to_string(), content.clone()))
        .collect()
}

#[test]
fn the_working_tree_follows_the_watched_tree() {
    let mut world = World::new();
    let mut sync = sync_loop();
    for (path, content) in [("keep.txt", "k"), ("old.txt", "o"), ("dir/b.txt", "b"), ("gone/x", "x")]
    {
        world.write(&format!("/data/{}", path), content);
        world.write(&format!("/repo/{}", path), content);
    }
    assert_eq!(tree(&world, "/data"), tree(&world, "/repo"));

    world.write("/data/new.txt", "n");
    world.write("/data/fresh/deep/f.txt", "f");
    world.remove_tree("/data/gone").unwrap();
    world.remove_file("/data/old.txt").unwrap();
    world.write("/data/moved/b.txt", "b");
    world.remove_tree("/data/dir").unwrap();
    world.burst(
        &mut sync,
        0,
        vec![
            created("/data/new.txt"),
            created("/data/fresh"),
            removed("/data/gone"),
            removed("/data/old.txt"),
            renamed("/data/dir", "/data/moved"),
        ],
    );
    assert!(world.failures.is_empty());
    assert_eq!(tree(&world, "/data"), tree(&world, "/repo"));
    assert_eq!(tree(&world, "/repo").len(), 4);
    assert!(!world.has("/repo/gone"));
    assert!(!world.has("/repo/dir"));
    assert_eq!(world.commits.len(), 1);
    assert_eq!(world.pushes.len(), 1);
}

#[test]
fn a_new_loop_is_idle() {
    let sync = sync_loop();
    assert_eq!(sync.stage(), Stage::Idle);
    assert!(sync.tip().is_none());
    assert_eq!(QUIESCENCE_MS, 2000);
}

#[test]
fn a_created_file_is_copied_committed_and_pushed() {
    let mut world = World::new();
    let mut sync = sync_loop();
    world.write("/data/a.txt", "x");
    world.burst(&mut sync, 100, vec![created("/data/a.txt")]);
    assert_eq!(world.files.get("/repo/a.txt").map(String::as_str), Some("x"));
    assert_eq!(world.commits.len(), 1);
    assert_eq!(world.commits[0].1, "c0");
    assert!(world.commits[0].2.starts_with("Autocommit "));
    assert_eq!(
        world.pushes,
        vec![("origin".to_string(), "refs/heads/master:refs/heads/master".to_string())]
    );
    assert_eq!(world.committed, vec!["c1".to_string()]);
    assert_eq!(sync.tip().unwrap().hex(), "c1");
    assert!(world.failures.is_empty());
    assert_eq!(
        world.trace,
        vec!["copy file /data/a.txt to /repo/a.txt", "stage", "head", "commit t1 on c0", "push"]
    );
}

#[test]
fn a_removed_directory_is_removed_with_what_it_held() {
    let mut world = World::new();
    let mut sync = sync_loop();
    world.write("/repo/dir/b.txt", "b");
    world.write("/repo/dir/sub/c.txt", "c");
    world.write("/repo/keep.txt", "k");
    world.burst(&mut sync, 0, vec![removed("/data/dir")]);
    assert!(!world.has("/repo/dir"));
    assert!(!world.has("/repo/dir/b.txt"));
    assert!(!world.has("/repo/dir/sub"));
    assert!(!world.has("/repo/dir/sub/c.txt"));
    assert_eq!(world.files.get("/repo/keep.txt").map(String::as_str), Some("k"));
    assert_eq!(world.trace[0], "remove tree /repo/dir");
    assert_eq!(world.commits.len(), 1);
    assert!(world.failures.is_empty());
}

#[test]
fn a_renamed_file_moves_within_one_cycle() {
    let mut world = World::new();
    let mut sync = sync_loop();
    world.write("/repo/a.txt", "content");
    world.write("/data/c.txt", "content");
    world.burst(&mut sync, 0, vec![renamed("/data/a.txt", "/data/c.txt")]);
    assert!(!world.has("/repo/a.txt"));
    assert_eq!(world.files.get("/repo/c.txt").map(String::as_str), Some("content"));
    assert_eq!(
        world.trace,
        vec![
            "remove file /repo/a.txt",
            "copy file /data/c.txt to /repo/c.txt",
            "stage",
            "head",
            "commit t1 on c0",
            "push",
        ]
    );
    assert_eq!(world.commits.len(), 1);
    assert!(world.failures.is_empty());
}

#[test]
fn a_rename_whose_removal_fails_makes_no_copy() {
    let mut world = World::new();
    let mut sync = sync_loop();
    world.write("/repo/a.txt", "content");
    world.write("/data/c.txt", "content");
    world.denied.insert("/repo/a.txt".to_string());
    world.burst(&mut sync, 0, vec![renamed("/data/a.txt", "/data/c.txt")]);
    assert_eq!(world.failures, vec![SyncError::Io(IoFailure::PermissionDenied)]);
    assert_eq!(world.files.get("/repo/a.txt").map(String::as_str), Some("content"));
    assert!(!world.has("/repo/c.txt"));
    assert_eq!(
        world.trace,
        vec!["remove file /repo/a.txt", "stage", "head", "commit t1 on c0", "push"]
    );
    assert_eq!(world.commits.len(), 1);
    assert_eq!(sync.stage(), Stage::Idle);
}

#[test]
fn a_rename_whose_removal_fails_leaves_the_other_events_their_turn() {
    let mut world = World::new();
    let mut sync = sync_loop();
    world.write("/repo/old/b.txt", "b");
    world.write("/data/new/b.txt", "b");
    world.write("/data/x.txt", "x");
    world.write("/repo/y.txt", "y");
    world.denied.insert("/repo/old".to_string());
    world.burst(
        &mut sync,
        0,
        vec![created("/data/x.txt"), renamed("/data/old", "/data/new"), removed("/data/y.txt")],
    );
    assert_eq!(world.failures, vec![SyncError::Io(IoFailure::PermissionDenied)]);
    assert_eq!(
        world.trace,
        vec![
            "copy file /data/x.txt to /repo/x.txt",
            "remove tree /repo/old",
            "remove file /repo/y.txt",
            "stage",
            "head",
            "commit t1 on c0",
            "push",
        ]
    );
    assert!(world.has("/repo/old/b.txt"));
    assert!(!world.has("/repo/new"));
    assert!(world.has("/repo/x.txt"));
    assert!(!world.has("/repo/y.txt"));
}

#[test]
fn a_rename_from_a_place_that_is_absent_still_makes_the_copy() {
    let mut world = World::new();
    let mut sync = sync_loop();
    world.write("/data/c.txt", "content");
    world.burst(&mut sync, 0, vec![renamed("/data/a.txt", "/data/c.txt")]);
    assert!(world.failures.is_empty());
    assert_eq!(world.files.get("/repo/c.txt").map(String::as_str), Some("content"));
    assert_eq!(world.trace[0], "remove file /repo/a.txt");
    assert_eq!(world.trace[1], "copy file /data/c.txt to /repo/c.txt");
}

#[test]
fn a_removal_and_a_creation_of_their_own_stay_independent() {
    let mut world = World::new();
    let mut sync = sync_loop();
    world.write("/repo/a.txt", "content");
    world.write("/data/c.txt", "content");
    world.denied.insert("/repo/a.txt".to_string());
    world.burst(&mut sync, 0, vec![removed("/data/a.txt"), created("/data/c.txt")]);
    assert_eq!(world.failures, vec![SyncError::Io(IoFailure::PermissionDenied)]);
    assert!(world.has("/repo/a.txt"));
    assert_eq!(world.files.get("/repo/c.txt").map(String::as_str), Some("content"));
    assert_eq!(
        world.trace,
        vec![
            "remove file /repo/a.txt",
            "copy file /data/c.txt to /repo/c.txt",
            "stage",
            "head",
            "commit t1 on c0",
            "push",
        ]
    );
}

#[test]
fn a_renamed_directory_moves_with_what_it_holds() {
    let mut world = World::new();
    let mut sync = sync_loop();
    world.write("/repo/old/b.txt", "b");
    world.write("/data/new/b.txt", "b");
    world.write("/data/new/sub/c.txt", "c");
    world.burst(&mut sync, 0, vec![renamed("/data/old", "/data/new")]);
    assert!(!world.has("/repo/old"));
    assert!(!world.has("/repo/old/b.txt"));
    assert_eq!(world.files.get("/repo/new/b.txt").map(String::as_str), Some("b"));
    assert_eq!(world.files.get("/repo/new/sub/c.txt").map(String::as_str), Some("c"));
    assert_eq!(world.trace[0], "remove tree /repo/old");
    assert_eq!(world.trace[1], "copy tree /data/new into /repo");
}

#[test]
fn a_created_directory_is_copied_with_missing_parents() {
    let mut world = World::new();
    let mut sync = sync_loop();
    world.write("/data/deep/er/dir/b.txt", "b");
    world.burst(&mut sync, 0, vec![created("/data/deep/er/dir")]);
    assert!(world.is_dir("/repo/deep/er/dir"));
    assert_eq!(world.files.get("/repo/deep/er/dir/b.txt").map(String::as_str), Some("b"));
    assert_eq!(world.trace[0], "copy tree /data/deep/er/dir into /repo/deep/er");
}

#[test]
fn a_copy_replaces_what_is_there() {
    let mut world = World::new();
    let mut sync = sync_loop();
    world.write("/repo/a.txt", "stale");
    world.write("/data/a.txt", "fresh");
    world.burst(&mut sync, 0, vec![created("/data/a.txt")]);
    assert_eq!(world.files.get("/repo/a.txt").map(String::as_str), Some("fresh"));
}

#[test]
fn create_then_remove_within_the_window_does_nothing() {
    let mut world = World::new();
    let mut sync = sync_loop();
    world.burst(&mut sync, 50, vec![created("/data/a.txt"), removed("/data/a.txt")]);
    assert!(world.trace.is_empty());
    assert_eq!(world.stagings, 0);
    assert!(world.commits.is_empty());
    assert!(world.pushes.is_empty());
    assert!(world.failures.is_empty());
    assert_eq!(sync.stage(), Stage::Idle);
    assert!(sync.tip().is_none());
}

#[test]
fn a_write_alone_commits_without_touching_the_tree() {
    let mut world = World::new();
    let mut sync = sync_loop();
    world.write("/data/a.txt", "new");
    world.write("/repo/a.txt", "old");
    world.burst(&mut sync, 0, vec![modified("/data/a.txt"), modified("/data/a.txt")]);
    assert_eq!(world.trace, vec!["stage", "head", "commit t1 on c0", "push"]);
    assert_eq!(world.files.get("/repo/a.txt").map(String::as_str), Some("old"));
}

#[test]
fn a_removal_event_for_an_absent_entry_reports_nothing() {
    let mut world = World::new();
    let mut sync = sync_loop();
    world.burst(&mut sync, 0, vec![removed("/data/never-there.txt")]);
    assert_eq!(world.trace[0], "remove file /repo/never-there.txt");
    assert!(world.failures.is_empty());
    assert_eq!(world.commits.len(), 1);
    world.burst(&mut sync, 5000, vec![removed("/data/never-there.txt")]);
    assert!(world.failures.is_empty());
    assert_eq!(world.commits.len(), 2);
}

#[test]
fn a_source_that_vanished_is_reported_and_the_cycle_goes_on() {
    let mut world = World::new();
    let mut sync = sync_loop();
    world.write("/data/b.txt", "b");
    world.burst(&mut sync, 0, vec![created("/data/gone.txt"), created("/data/b.txt")]);
    assert_eq!(world.failures, vec![SyncError::Io(IoFailure::NotFound)]);
    assert_eq!(world.files.get("/repo/b.txt").map(String::as_str), Some("b"));
    assert_eq!(world.commits.len(), 1);
    assert_eq!(world.pushes.len(), 1);
}

#[test]
fn a_source_that_vanished_leaves_no_directory_behind() {
    let mut world = World::new();
    let mut sync = sync_loop();
    world.burst(&mut sync, 0, vec![created("/data/deep/er/gone.txt")]);
    assert_eq!(world.failures, vec![SyncError::Io(IoFailure::NotFound)]);
    assert_eq!(world.trace[0], "copy file /data/deep/er/gone.txt to /repo/deep/er/gone.txt");
    assert!(!world.has("/repo/deep"));
    assert_eq!(world.commits.len(), 1);
}

#[test]
fn a_failure_of_the_last_mutation_still_commits() {
    let mut world = World::new();
    let mut sync = sync_loop();
    world.write("/data/secret.txt", "s");
    world.denied.insert("/data/secret.txt".to_string());
    world.burst(&mut sync, 0, vec![created("/data/secret.txt")]);
    assert_eq!(world.failures, vec![SyncError::Io(IoFailure::PermissionDenied)]);
    assert!(!world.has("/repo/secret.txt"));
    assert_eq!(world.commits.len(), 1);
}

#[test]
fn events_outside_the_roots_are_counted_and_skipped() {
    let mut world = World::new();
    let mut sync = sync_loop();
    world.write("/data/a.txt", "a");
    world.write("/etc/passwd", "root");
    world.burst(
        &mut sync,
        0,
        vec![created("/etc/passwd"), created("/data/a.txt"), removed("/data/../repo/.git")],
    );
    assert_eq!(world.rejected, 2);
    assert_eq!(world.trace[0], "copy file /data/a.txt to /repo/a.txt");
    assert!(!world.has("/repo/passwd"));
    assert_eq!(world.commits.len(), 1);
}

#[test]
fn a_batch_of_refused_events_still_commits() {
    let mut world = World::new();
    let mut sync = sync_loop();
    world.burst(&mut sync, 0, vec![created("/etc/passwd")]);
    assert_eq!(world.rejected, 1);
    assert_eq!(world.trace, vec!["stage", "head", "commit t1 on c0", "push"]);
}

#[test]
fn a_failed_staging_ends_the_cycle_without_commit() {
    let mut world = World::new();
    let mut sync = sync_loop();
    world.stage_works = false;
    world.write("/data/a.txt", "a");
    world.burst(&mut sync, 0, vec![created("/data/a.txt")]);
    assert_eq!(world.failures, vec![SyncError::StageFailed]);
    assert_eq!(world.trace, vec!["copy file /data/a.txt to /repo/a.txt", "stage"]);
    assert!(world.commits.is_empty());
    assert!(world.pushes.is_empty());
    assert_eq!(sync.stage(), Stage::Idle);
}

#[test]
fn a_repository_without_commit_fails_every_cycle_until_it_has_one() {
    let mut world = World::new();
    let mut sync = sync_loop();
    world.head = None;
    world.burst(&mut sync, 0, vec![modified("/data/a.txt")]);
    world.burst(&mut sync, 5000, vec![modified("/data/a.txt")]);
    assert_eq!(world.failures, vec![SyncError::NoHeadCommit, SyncError::NoHeadCommit]);
    assert!(world.commits.is_empty());
    assert!(world.pushes.is_empty());
    world.head = Some("c0".to_string());
    world.burst(&mut sync, 10000, vec![modified("/data/a.txt")]);
    assert_eq!(world.commits.len(), 1);
    assert_eq!(world.pushes.len(), 1);
}

#[test]
fn a_commit_that_fails_is_not_pushed() {
    let mut world = World::new();
    let mut sync = sync_loop();
    world.commit_works = false;
    world.burst(&mut sync, 0, vec![modified("/data/a.txt")]);
    assert_eq!(world.failures, vec![SyncError::CommitFailed]);
    assert!(world.pushes.is_empty());
    assert!(sync.tip().is_none());
}

#[test]
fn after_a_rejected_push_the_loop_commits_and_pushes_again() {
    let mut world = World::new();
    let mut sync = sync_loop();
    world.push_works = false;
    world.burst(&mut sync, 0, vec![modified("/data/a.txt")]);
    assert_eq!(world.failures, vec![SyncError::PushRejected]);
    assert_eq!(world.commits.len(), 1);
    assert_eq!(world.head.as_deref(), Some("c1"));
    assert_eq!(sync.tip().unwrap().hex(), "c1");
    assert!(world.committed.is_empty());
    assert_eq!(sync.stage(), Stage::Idle);

    world.push_works = true;
    world.burst(&mut sync, 5000, vec![modified("/data/a.txt")]);
    assert_eq!(world.commits.len(), 2);
    assert_eq!(world.commits[1].1, "c1");
    assert_eq!(world.pushes.len(), 2);
    assert_eq!(world.committed, vec!["c2".to_string()]);
    assert_eq!(sync.tip().unwrap().hex(), "c2");
}

#[test]
fn an_event_after_the_window_opens_the_next_burst() {
    let mut world = World::new();
    let mut sync = sync_loop();
    world.write("/data/a.txt", "a");
    world.write("/data/b.txt", "b");
    assert_eq!(
        world.run(&mut sync, Input::Notified { event: created("/data/a.txt"), now: 0 }),
        Some(2000)
    );
    let until = world.run(&mut sync, Input::Notified { event: created("/data/b.txt"), now: 2500 });
    assert_eq!(until, Some(4500));
    assert_eq!(world.files.get("/repo/a.txt").map(String::as_str), Some("a"));
    assert!(!world.has("/repo/b.txt"));
    assert_eq!(world.commits.len(), 1);
    assert_eq!(world.run(&mut sync, Input::Tick { now: 4499 }), Some(4500));
    assert_eq!(world.commits.len(), 1);
    assert_eq!(world.run(&mut sync, Input::Tick { now: 4500 }), None);
    assert_eq!(world.files.get("/repo/b.txt").map(String::as_str), Some("b"));
    assert_eq!(world.commits.len(), 2);
}

#[test]
fn a_tick_without_burst_only_waits() {
    let mut world = World::new();
    let mut sync = sync_loop();
    assert_eq!(world.run(&mut sync, Input::Tick { now: 123_456 }), None);
    assert!(world.trace.is_empty());
}

#[test]
fn an_input_that_was_not_asked_for_is_refused() {
    let mut sync = sync_loop();
    assert!(sync.step(Input::Probed { is_dir: true }).is_none());
    assert!(sync.step(Input::Applied { result: Ok(()) }).is_none());
    assert!(sync.step(Input::Repo { outcome: GitOutcome::Pushed(true) }).is_none());
    assert_eq!(sync.stage(), Stage::Idle);

    sync.step(Input::Notified { event: created("/data/a.txt"), now: 0 }).unwrap();
    let step = sync.step(Input::Tick { now: 2000 }).unwrap();
    assert!(matches!(step.action, Action::Probe { .. }));
    assert!(sync.step(Input::Tick { now: 3000 }).is_none());
    assert!(sync.step(Input::Notified { event: created("/data/b.txt"), now: 3000 }).is_none());
    assert!(sync.step(Input::Applied { result: Ok(()) }).is_none());
    assert_eq!(sync.stage(), Stage::Probing);

    let step = sync.step(Input::Probed { is_dir: false }).unwrap();
    assert!(matches!(step.action, Action::Apply { .. }));
    assert!(sync.step(Input::Probed { is_dir: false }).is_none());
    assert_eq!(sync.stage(), Stage::Applying);

    let step = sync.step(Input::Applied { result: Ok(()) }).unwrap();
    assert!(matches!(step.action, Action::Repo { action: GitAction::StageAll }));
    assert!(sync.step(Input::Repo { outcome: GitOutcome::Pushed(true) }).is_none());
    assert!(sync.step(Input::Tick { now: 3000 }).is_none());
    assert_eq!(sync.stage(), Stage::Committing);
}

#[test]
fn the_commit_of_a_step_is_labelled_with_the_given_time() {
    let mut sync = sync_loop();
    sync.step_at(Input::Notified { event: modified("/data/a.txt"), now: 0 }, &noon()).unwrap();
    let step = sync.step_at(Input::Tick { now: 2000 }, &noon()).unwrap();
    assert!(matches!(step.action, Action::Repo { action: GitAction::StageAll }));
    let staged = GitOutcome::Staged(Some(ObjectId::new("7ee".to_string())));
    let step = sync.step_at(Input::Repo { outcome: staged }, &noon()).unwrap();
    assert!(matches!(step.action, Action::Repo { action: GitAction::ResolveHead }));
    let head = GitOutcome::Head(Some(ObjectId::new("aaa".to_string())));
    let step = sync.step_at(Input::Repo { outcome: head }, &noon()).unwrap();
    match step.action {
        Action::Repo { action: GitAction::Commit { tree, parent, message } } => {
            assert_eq!(tree.hex(), "7ee");
            assert_eq!(parent.hex(), "aaa");
            assert_eq!(message, "Autocommit Thu, 22 Mar 2012 12:00:00 GMT");
        }
        other => panic!("unexpected action {:?}", other),
    }
}
