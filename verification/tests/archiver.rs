//! The decisions of a backup.

use jiff::tz::{self, TimeZone};
use jiff::{Timestamp, Zoned};
use rustic_faults::archiver::{
    is_placeable, place, scans_size, size_result, Archiver, Decision, FinishStep, SizeResult,
    SnapshotFile, SourceEntry, Summary, TreeStackEmptyError,
};
use rustic_faults::error::{ErrorKind, RusticError};
use rustic_faults::id::{Id, SnapshotId, TreeId};

fn now() -> Zoned {
    Timestamp::new(-5, 0).unwrap().to_zoned(TimeZone::fixed(tz::offset(2)))
}

fn id(n: u128) -> Id {
    Id { hi: n, lo: n }
}

fn snapshot(values: Option<u32>) -> SnapshotFile<u32> {
    let summary = values
        .map(|values| Summary { backup_start: now(), values });
    SnapshotFile { id: SnapshotId(id(0)), tree: TreeId(id(0)), summary }
}

fn archiver(fail: bool, parent: Option<TreeId>) -> Archiver<u32> {
    Archiver::new(snapshot(None), parent, fail, Some(2), now(), 7).0
}

fn path(parts: &[&str]) -> Vec<String> {
    parts.iter().map(|part| part.to_string()).collect()
}

fn entry(parts: &[&str], is_dir: bool) -> SourceEntry<u32> {
    SourceEntry { path: path(parts), is_dir, node: 9 }
}

fn error(n: u128) -> RusticError {
    RusticError::IdMissing { id: id(n) }
}

#[test]
fn a_new_archiver_starts_the_summary() {
    let (archiver, summary) =
        Archiver::new(snapshot(Some(3)), None, true, Some(4), now(), 7);
    assert_eq!(summary.backup_start, now());
    assert_eq!(summary.backup_start.offset(), tz::offset(2));
    assert_eq!(summary.values, 3);
    assert!(archiver.snap.summary.is_none());
    assert_eq!(archiver.threads, Some(4));
    assert!(archiver.fail_on_read_error);
    assert!(!archiver.first_error.is_set());
    let (_, summary) = Archiver::new(snapshot(None), None, true, None, now(), 7);
    assert_eq!(summary.values, 7);
}

#[test]
fn an_entry_goes_to_the_tree_of_its_directory() {
    let backup = path(&["/", "home"]);
    assert_eq!(place(&path(&["/", "home", "a"]), false, &backup, None), path(&["/", "home"]));
    assert_eq!(place(&path(&["/", "home"]), true, &backup, None), path(&["/", "home"]));
    let as_path = path(&["data"]);
    assert_eq!(
        place(&path(&["/", "home", "d", "a"]), false, &backup, Some(&as_path)),
        path(&["data", "d"])
    );
    assert_eq!(
        place(&path(&["/", "home", "d"]), true, &backup, Some(&as_path)),
        path(&["data", "d"])
    );
    assert_eq!(place(&path(&["/", "home"]), true, &backup, Some(&as_path)), path(&["data"]));
}

#[test]
fn an_entry_outside_the_backup_path_has_no_place() {
    let backup = path(&["/", "home"]);
    let as_path = path(&["data"]);
    assert!(is_placeable(&path(&["/", "home", "a"]), false, &backup, Some(&as_path)));
    assert!(!is_placeable(&path(&["/", "etc", "a"]), false, &backup, Some(&as_path)));
    assert!(!is_placeable(&path(&["/"]), true, &backup, Some(&as_path)));
    assert!(is_placeable(&path(&["/", "etc", "a"]), false, &backup, None));
    // A file needs a directory.
    assert!(!is_placeable(&path(&["/"]), false, &backup, None));
    assert!(!is_placeable(&path(&[]), false, &backup, None));
    assert!(is_placeable(&path(&["/"]), true, &backup, None));
    assert!(is_placeable(&path(&["a"]), false, &path(&[]), None));
    // The backup of a single file takes the name of the path in the snapshot.
    let file = path(&["/", "home"]);
    assert!(is_placeable(&file, false, &backup, Some(&as_path)));
    assert!(!is_placeable(&file, false, &backup, Some(&path(&["/"]))));
    assert!(!is_placeable(&file, false, &backup, Some(&path(&[]))));
}

#[test]
fn an_absolute_rest_replaces_the_path_in_the_snapshot() {
    let whole = path(&["/", "a"]);
    assert_eq!(
        place(&whole, false, &path(&[]), Some(&path(&["data"]))),
        path(&["/"])
    );
}

#[test]
fn the_first_error_stops_a_strict_backup() {
    let mut archiver = archiver(true, None);
    let backup = path(&["s"]);
    match archiver.entry(Ok(entry(&["s", "a"], false)), &backup, None) {
        Decision::Pass((tree, entry)) => {
            assert_eq!(tree, path(&["s"]));
            assert_eq!(entry.node, 9);
        }
        other => panic!("{other:?}"),
    }
    assert!(matches!(archiver.entry::<u32>(Err(error(1)), &backup, None), Decision::Skip));
    let next = archiver.entry(Ok(entry(&["s", "b"], false)), &backup, None);
    assert!(matches!(next, Decision::Stop));
    assert!(matches!(archiver.file_result::<u32>(Err(error(2))), Decision::Skip));
    match archiver.archive(Ok(()), false) {
        FinishStep::Failed(RusticError::IdMissing { id: first }) => assert_eq!(first, id(1)),
        other => panic!("{other:?}"),
    }
}

#[test]
fn errors_of_each_stage_are_warnings_without_the_option() {
    let mut archiver = archiver(false, None);
    let backup = path(&["s"]);
    assert!(matches!(
        archiver.entry::<u32>(Err(error(1)), &backup, None),
        Decision::Warn(RusticError::IdMissing { .. })
    ));
    assert!(matches!(
        archiver.parent_result::<u32>(Err(TreeStackEmptyError)),
        Decision::Warn(RusticError::TreeStackEmpty)
    ));
    assert!(matches!(
        archiver.file_result::<u32>(Err(error(2))),
        Decision::Warn(RusticError::IdMissing { .. })
    ));
    assert!(matches!(archiver.parent_result(Ok(3)), Decision::Pass(3)));
    assert!(matches!(archiver.file_result(Ok(4)), Decision::Pass(4)));
    assert!(matches!(archiver.archive(Ok(()), false), FinishStep::FinalizeFiles(_)));
}

#[test]
fn an_empty_tree_stack_fails_a_strict_backup() {
    let mut archiver = archiver(true, None);
    assert!(matches!(
        archiver.parent_result::<u32>(Err(TreeStackEmptyError)),
        Decision::Skip
    ));
    match archiver.archive(Ok(()), false) {
        FinishStep::Failed(err) => {
            assert_eq!(err.kind(), ErrorKind::Internal);
            assert_eq!(err.to_string(), "The tree stack of the parent snapshot is empty.");
        }
        other => panic!("{other:?}"),
    }
}

#[test]
fn an_error_of_the_tree_stage_comes_before_the_first_error() {
    let mut archiver = archiver(true, None);
    _ = archiver.file_result::<u32>(Err(error(1)));
    match archiver.archive(Err(error(2)), false) {
        FinishStep::Failed(RusticError::IdMissing { id: found }) => assert_eq!(found, id(2)),
        other => panic!("{other:?}"),
    }
}

/// Completes a backup that gives the tree `tree`.
fn finish(skip: bool, parent: Option<TreeId>, tree: TreeId) -> FinishStep<u32> {
    let FinishStep::FinalizeFiles(finish) = archiver(true, parent).archive(Ok(()), skip) else {
        panic!("the backup has no error");
    };
    let FinishStep::FinalizeTrees(finish) = finish.files_done(Ok(())) else {
        panic!("the files are complete");
    };
    let summary = || Summary { backup_start: now(), values: 1 };
    let FinishStep::FinalizeIndex(finish, _) = finish.trees_done(Ok((tree, summary()))) else {
        panic!("the trees are complete");
    };
    finish.index_done(Ok(summary()))
}

#[test]
fn a_new_tree_is_saved() {
    let tree = TreeId(id(5));
    for parent in [None, Some(TreeId(id(4)))] {
        match finish(true, parent, tree) {
            FinishStep::SaveSnapshot(finish) => {
                assert_eq!(finish.snap.tree, tree);
                assert_eq!(finish.snap.summary.as_ref().unwrap().values, 1);
                match finish.snapshot_saved(Ok(SnapshotId(id(8)))) {
                    FinishStep::Done(snap) => assert_eq!(snap.id, SnapshotId(id(8))),
                    other => panic!("{other:?}"),
                }
            }
            other => panic!("{other:?}"),
        }
    }
}

#[test]
fn an_identical_tree_is_skipped_only_with_the_option() {
    let tree = TreeId(id(5));
    assert!(matches!(finish(true, Some(tree), tree), FinishStep::Done(_)));
    assert!(matches!(finish(false, Some(tree), tree), FinishStep::SaveSnapshot(_)));
}

#[test]
fn each_step_of_the_end_can_fail() {
    let start = || match archiver(true, None).archive(Ok(()), false) {
        FinishStep::FinalizeFiles(finish) => finish,
        other => panic!("{other:?}"),
    };
    assert!(matches!(start().files_done(Err(error(1))), FinishStep::Failed(_)));
    assert!(matches!(start().trees_done(Err(error(1))), FinishStep::Failed(_)));
    assert!(matches!(start().index_done(Err(error(1))), FinishStep::Failed(_)));
    assert!(matches!(start().snapshot_saved(Err(error(1))), FinishStep::Failed(_)));
}

#[test]
fn a_backup_scans_the_size_for_a_visible_progress() {
    assert!(scans_size(false, false));
    assert!(!scans_size(true, false));
    assert!(!scans_size(false, true));
    assert!(matches!(size_result(Ok(Some(5))), SizeResult::SetLength(5)));
    assert!(matches!(size_result(Ok(None)), SizeResult::Nothing));
    assert!(matches!(size_result(Err(error(1))), SizeResult::Warn(_)));
}

#[test]
fn an_archiver_with_an_error_does_not_look_at_the_next_entry() {
    let mut archiver = archiver(true, None);
    let backup = path(&["/", "home"]);
    assert!(matches!(archiver.file_result::<()>(Err(error(1))), Decision::Skip));
    // The entry is not below the source, so it has no place in the snapshot.
    let stray = entry(&["/", "etc"], false);
    assert!(!is_placeable(&stray.path, false, &backup, Some(&path(&["data"]))));
    let decision = archiver.entry(Ok(stray), &backup, Some(&path(&["data"])));
    assert!(matches!(decision, Decision::Stop));
}

/// The trees and nodes of the entries of `items` that `archiver` lets through.
fn passed(
    mut archiver: Archiver<u32>,
    items: Vec<Option<SourceEntry<u32>>>,
    as_path: Option<&Vec<String>>,
) -> Vec<(Vec<String>, bool, u32)> {
    let backup = path(&["/", "home"]);
    items
        .into_iter()
        .map(|item| item.ok_or(error(1)))
        .filter_map(|item| match archiver.entry(item, &backup, as_path) {
            Decision::Pass((tree, entry)) => Some((tree, entry.is_dir, entry.node)),
            _ => None,
        })
        .collect()
}

#[test]
fn errors_threads_and_as_path_give_the_same_entries() {
    let (a, b) = (["/", "home", "a"], ["/", "home", "d"]);
    let all = || vec![Some(entry(&a, false)), Some(entry(&b, true))];
    let expected = passed(archiver(false, None), all(), None);
    assert_eq!(expected.len(), 2);

    let with_error = vec![Some(entry(&a, false)), None, Some(entry(&b, true))];
    assert_eq!(passed(archiver(false, None), with_error, None), expected);

    let one_thread = Archiver { threads: Some(1), ..archiver(false, None) };
    assert_eq!(passed(one_thread, all(), None), expected);

    let as_path = path(&["data"]);
    let moved = vec![Some(entry(&["data", "a"], false)), Some(entry(&["data", "d"], true))];
    assert_eq!(
        passed(archiver(false, None), all(), Some(&as_path)),
        passed(archiver(false, None), moved, None)
    );
}
