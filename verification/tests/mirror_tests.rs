use autocommit::error::{IoFailure, SyncError};
use autocommit::event::ChangeEvent;
use autocommit::mirror::{
    copy_into, plan_batch, plan_event, remove_from, rename_within, CopySettings, FsCommand,
    MirrorOp,
};
use autocommit::path::Place;

fn roots() -> Vec<String> {
    vec!["/data".to_string()]
}

fn place(path: &str, parent: &str) -> Place {
    Place { path: path.to_string(), parent: parent.to_string() }
}

fn shown_ops(ops: &[MirrorOp]) -> Vec<String> {
    ops.iter().map(|op| format!("{:?}", op)).collect()
}

fn copy(source: &str, dest: &str, parent: &str) -> MirrorOp {
    MirrorOp::CopyInto {
        source: source.to_string(),
        dest: dest.to_string(),
        parent: parent.to_string(),
    }
}

fn removal(dest: &str) -> MirrorOp {
    MirrorOp::RemoveFrom { dest: dest.to_string(), renaming: false }
}

fn opening(dest: &str) -> MirrorOp {
    MirrorOp::RemoveFrom { dest: dest.to_string(), renaming: true }
}

#[test]
fn a_copy_probes_the_watched_entry() {
    let op = copy_into("/data/dir".to_string(), place("/repo/dir", "/repo"));
    assert_eq!(format!("{:?}", op), format!("{:?}", copy("/data/dir", "/repo/dir", "/repo")));
    assert_eq!(op.probe(), "/data/dir");
}

#[test]
fn a_removal_probes_the_working_tree() {
    let op = remove_from(place("/repo/dir", "/repo"));
    assert_eq!(format!("{:?}", op), format!("{:?}", removal("/repo/dir")));
    assert_eq!(op.probe(), "/repo/dir");
}

#[test]
fn a_directory_is_copied_into_the_parent_and_always_overwrites() {
    let op = copy("/data/dir", "/repo/dir", "/repo");
    match op.command(true) {
        FsCommand::CopyTree { from, into, settings } => {
            assert_eq!(from, "/data/dir");
            assert_eq!(into, "/repo");
            assert_eq!(
                settings,
                CopySettings { overwrite: true, skip_exist: false, buffer_size: 64000 }
            );
        }
        other => panic!("unexpected command {:?}", other),
    }
}

#[test]
fn a_file_is_copied_to_its_place() {
    let op = copy("/data/dir/b.txt", "/repo/dir/b.txt", "/repo/dir");
    match op.command(false) {
        FsCommand::CopyFile { from, to, parent } => {
            assert_eq!(from, "/data/dir/b.txt");
            assert_eq!(to, "/repo/dir/b.txt");
            assert_eq!(parent, "/repo/dir");
        }
        other => panic!("unexpected command {:?}", other),
    }
}

#[test]
fn a_directory_is_removed_with_what_is_below() {
    match removal("/repo/dir").command(true) {
        FsCommand::RemoveTree { path } => assert_eq!(path, "/repo/dir"),
        other => panic!("unexpected command {:?}", other),
    }
}

#[test]
fn a_file_is_removed_alone() {
    match removal("/repo/a.txt").command(false) {
        FsCommand::RemoveFile { path } => assert_eq!(path, "/repo/a.txt"),
        other => panic!("unexpected command {:?}", other),
    }
}

#[test]
fn removing_what_is_absent_is_no_failure() {
    assert_eq!(removal("/repo/a.txt").settle(Err(IoFailure::NotFound)), None);
    assert_eq!(removal("/repo/a.txt").settle(Ok(())), None);
}

#[test]
fn other_failures_of_a_removal_are_reported() {
    assert_eq!(
        removal("/repo/a.txt").settle(Err(IoFailure::PermissionDenied)),
        Some(SyncError::Io(IoFailure::PermissionDenied))
    );
    assert_eq!(
        removal("/repo/a.txt").settle(Err(IoFailure::Other)),
        Some(SyncError::Io(IoFailure::Other))
    );
}

#[test]
fn every_failure_of_a_copy_is_reported() {
    let op = copy("/data/a.txt", "/repo/a.txt", "/repo");
    assert_eq!(op.settle(Ok(())), None);
    assert_eq!(op.settle(Err(IoFailure::NotFound)), Some(SyncError::Io(IoFailure::NotFound)));
    assert_eq!(
        op.settle(Err(IoFailure::PermissionDenied)),
        Some(SyncError::Io(IoFailure::PermissionDenied))
    );
    assert_eq!(op.settle(Err(IoFailure::Other)), Some(SyncError::Io(IoFailure::Other)));
}

#[test]
fn a_rename_is_a_removal_then_a_copy() {
    let ops = rename_within(
        place("/repo/a.txt", "/repo"),
        "/data/c.txt".to_string(),
        place("/repo/c.txt", "/repo"),
    );
    assert_eq!(
        shown_ops(&ops),
        shown_ops(&[opening("/repo/a.txt"), copy("/data/c.txt", "/repo/c.txt", "/repo")])
    );
    assert!(ops[0].leads());
    assert!(!ops[1].leads());
}

#[test]
fn a_removal_on_its_own_account_leads_nothing() {
    assert!(!remove_from(place("/repo/a.txt", "/repo")).leads());
    assert!(!copy("/data/c.txt", "/repo/c.txt", "/repo").leads());
}

#[test]
fn the_removal_of_a_rename_is_chosen_and_judged_like_any_other() {
    match opening("/repo/dir").command(true) {
        FsCommand::RemoveTree { path } => assert_eq!(path, "/repo/dir"),
        other => panic!("unexpected command {:?}", other),
    }
    match opening("/repo/a.txt").command(false) {
        FsCommand::RemoveFile { path } => assert_eq!(path, "/repo/a.txt"),
        other => panic!("unexpected command {:?}", other),
    }
    assert_eq!(opening("/repo/a.txt").probe(), "/repo/a.txt");
    assert_eq!(opening("/repo/a.txt").settle(Ok(())), None);
    assert_eq!(opening("/repo/a.txt").settle(Err(IoFailure::NotFound)), None);
    assert_eq!(
        opening("/repo/a.txt").settle(Err(IoFailure::PermissionDenied)),
        Some(SyncError::Io(IoFailure::PermissionDenied))
    );
}

#[test]
fn a_creation_plans_one_copy() {
    let ops = plan_event(&ChangeEvent::Created("/data/dir/b.txt".to_string()), &roots(), "/repo")
        .unwrap();
    assert_eq!(
        shown_ops(&ops),
        shown_ops(&[copy("/data/dir/b.txt", "/repo/dir/b.txt", "/repo/dir")])
    );
}

#[test]
fn a_write_plans_nothing() {
    let ops =
        plan_event(&ChangeEvent::Modified("/data/a.txt".to_string()), &roots(), "/repo").unwrap();
    assert!(ops.is_empty());
    let ops =
        plan_event(&ChangeEvent::Modified("/elsewhere".to_string()), &roots(), "/repo").unwrap();
    assert!(ops.is_empty());
}

#[test]
fn a_removal_plans_one_removal() {
    let ops =
        plan_event(&ChangeEvent::Removed("/data/dir".to_string()), &roots(), "/repo").unwrap();
    assert_eq!(shown_ops(&ops), shown_ops(&[removal("/repo/dir")]));
}

#[test]
fn a_rename_plans_removal_and_copy() {
    let event = ChangeEvent::Renamed("/data/a.txt".to_string(), "/data/sub/c.txt".to_string());
    let ops = plan_event(&event, &roots(), "/repo").unwrap();
    assert_eq!(
        shown_ops(&ops),
        shown_ops(&[
            opening("/repo/a.txt"),
            copy("/data/sub/c.txt", "/repo/sub/c.txt", "/repo/sub"),
        ])
    );
}

#[test]
fn events_outside_the_roots_are_refused() {
    let outside = "/etc/passwd".to_string();
    let inside = "/data/a.txt".to_string();
    assert_eq!(
        plan_event(&ChangeEvent::Created(outside.clone()), &roots(), "/repo").err(),
        Some(SyncError::InvalidPath)
    );
    assert_eq!(
        plan_event(&ChangeEvent::Removed("/data/../repo/.git".to_string()), &roots(), "/repo")
            .err(),
        Some(SyncError::InvalidPath)
    );
    assert_eq!(
        plan_event(&ChangeEvent::Renamed(inside.clone(), outside.clone()), &roots(), "/repo")
            .err(),
        Some(SyncError::InvalidPath)
    );
    assert_eq!(
        plan_event(&ChangeEvent::Renamed(outside, inside), &roots(), "/repo").err(),
        Some(SyncError::InvalidPath)
    );
    assert_eq!(
        plan_event(&ChangeEvent::Removed("/data".to_string()), &roots(), "/repo").err(),
        Some(SyncError::InvalidPath)
    );
}

#[test]
fn a_batch_is_planned_in_order_and_counts_what_it_refuses() {
    let events = vec![
        ChangeEvent::Created("/data/a.txt".to_string()),
        ChangeEvent::Created("/tmp/x".to_string()),
        ChangeEvent::Modified("/data/m.txt".to_string()),
        ChangeEvent::Renamed("/data/old".to_string(), "/data/new".to_string()),
        ChangeEvent::Removed("/data".to_string()),
        ChangeEvent::Removed("/data/gone".to_string()),
    ];
    let plan = plan_batch(&events, &roots(), "/repo");
    assert_eq!(
        shown_ops(&plan.ops),
        shown_ops(&[
            copy("/data/a.txt", "/repo/a.txt", "/repo"),
            opening("/repo/old"),
            copy("/data/new", "/repo/new", "/repo"),
            removal("/repo/gone"),
        ])
    );
    assert_eq!(plan.rejected, 2);
}

#[test]
fn an_empty_batch_plans_nothing() {
    let plan = plan_batch(&Vec::new(), &roots(), "/repo");
    assert!(plan.ops.is_empty());
    assert_eq!(plan.rejected, 0);
}
