//! Models of trees, the state of a case, and its coverage.

use rustic_faults::coverage::{Coverage, Injected, Stats, StepName, StepOutcome};
use rustic_faults::error::{BackendCall, BackendOp};
use rustic_faults::fault::Fault;
use rustic_faults::file_type::FileType;
use rustic_faults::id::{Id, SnapshotId};
use rustic_faults::model::{
    content_to_read, describe_links, describe_paths, ContentToRead, Entry, FileId, FileTime, Kind,
    Model, Scan, ScanItem,
};
use rustic_faults::plan::{DestFault, FaultRule, Trigger};
use rustic_faults::sorted::Order;
use rustic_faults::state::{
    case_seed, describe_failed_case, first_seed, parse_seed, restore_into, same_snapshots, snapshot_set,
    Injection, RestoreStep, Restored, State,
};
use rustic_faults::tree_path::{order_texts, TreePath};

const TIME: FileTime = FileTime { secs: 100, nanos: 5 };

fn path(text: &str) -> TreePath {
    TreePath::new(text.split('/').map(str::to_string).collect())
}

fn item(kind: Kind, ino: u64, nlink: u64) -> ScanItem {
    let is_file = matches!(kind, Kind::File(_));
    let file = FileId { dev: 1, ino };
    ScanItem { kind, is_file, nlink, file, mode: 0o100_644, mtime: TIME }
}

fn data(bytes: &[u8]) -> Kind {
    Kind::File(bytes.to_vec())
}

/// Scans a directory with a file of two names, a file and a symlink.
fn scan(first_ino: u64) -> Scan {
    let mut scan = Scan::new();
    assert!(scan.add(&path("d"), item(Kind::Dir, first_ino, 2)));
    assert!(!scan.add(&path("d/b"), item(data(b"two names"), first_ino + 1, 2)));
    assert!(!scan.add(&path("a"), item(data(b"two names"), first_ino + 1, 2)));
    assert!(!scan.add(&path("c"), item(data(b"x"), first_ino + 2, 1)));
    assert!(!scan.add(&path("l"), item(Kind::Symlink("a".to_string()), first_ino + 3, 1)));
    scan
}

fn model() -> Model {
    scan(10).into_model()
}

#[test]
fn the_same_tree_passes_with_other_inodes() {
    assert_eq!(model().check(&scan(500).into_model()), Ok(()));
    assert_eq!(model().check(&model()), Ok(()));
}

#[test]
fn the_order_of_inodes_does_not_change_the_links() {
    let linked = |order: [u64; 4]| {
        let mut scan = Scan::new();
        for (name, ino) in ["a", "b", "c", "d"].iter().zip(order) {
            _ = scan.add(&path(name), item(data(b""), ino, 2));
        }
        scan.into_model()
    };
    assert_eq!(linked([1, 2, 2, 1]).check(&linked([8, 7, 7, 8])), Ok(()));
    assert_eq!(
        linked([1, 2, 2, 1]).check(&linked([1, 1, 2, 2])),
        Err("The paths and entries of the restored tree are equal to the saved tree, but the hard links differ. Saved groups of names of one file: [[\"a\", \"d\"], [\"b\", \"c\"]]. Restored groups: [[\"a\", \"b\"], [\"c\", \"d\"]].".to_string())
    );
}

#[test]
fn other_paths_are_reported_first() {
    let mut other = Scan::new();
    _ = other.add(&path("d"), item(Kind::Dir, 1, 2));
    _ = other.add(&path("c"), item(data(b"changed"), 2, 1));
    _ = other.add(&path("new file"), item(data(b""), 3, 1));
    assert_eq!(
        model().check(&other.into_model()),
        Err("The restored tree has other paths. Missing: [\"a\", \"d/b\", \"l\"]. Extra: [\"new file\"].".to_string())
    );
}

#[test]
fn the_first_entry_that_differs_is_reported() {
    let mut other = scan(10);
    _ = other.add(&path("c"), item(data(b"longer"), 12, 1));
    _ = other.add(&path("l"), item(Kind::Symlink("b".to_string()), 13, 1));
    assert_eq!(
        model().check(&other.into_model()),
        Err("The restored entry `c` differs. Saved: file of 1 bytes, mode Some(420), mtime SystemTime { tv_sec: 100, tv_nsec: 5 }. Restored: file of 6 bytes, mode Some(420), mtime SystemTime { tv_sec: 100, tv_nsec: 5 }.".to_string())
    );
}

#[test]
fn a_lost_hard_link_is_reported() {
    let mut other = Scan::new();
    _ = other.add(&path("d"), item(Kind::Dir, 10, 2));
    _ = other.add(&path("d/b"), item(data(b"two names"), 11, 1));
    _ = other.add(&path("a"), item(data(b"two names"), 12, 1));
    _ = other.add(&path("c"), item(data(b"x"), 13, 1));
    _ = other.add(&path("l"), item(Kind::Symlink("a".to_string()), 14, 1));
    let message = model().check(&other.into_model()).unwrap_err();
    assert!(message.ends_with("one file: [[\"a\", \"d/b\"]]. Restored groups: []."), "{message}");
}

#[test]
fn quotes_in_paths_are_escaped() {
    let mut other = scan(10);
    _ = other.add(&path("say \"hi\""), item(data(b""), 99, 1));
    let message = model().check(&other.into_model()).unwrap_err();
    assert!(message.ends_with(r#"Extra: ["say \"hi\""]."#), "{message}");
}

#[test]
fn messages_join_their_parts() {
    let texts = |list: &[&str]| list.iter().map(|text| text.to_string()).collect::<Vec<_>>();
    assert_eq!(
        describe_paths(&texts(&["x"]), &texts(&["y", "z"])),
        "The restored tree has other paths. Missing: [x]. Extra: [y, z]."
    );
    assert!(describe_links(&texts(&["x"]), &texts(&[])).ends_with("one file: [x]. Restored groups: []."));
}

#[test]
fn entries_describe_themselves() {
    let entry = |kind, mode, secs| Entry { kind, mode, mtime: FileTime { secs, nanos: 0 } };
    assert_eq!(
        entry(Kind::Dir, Some(0o755), 7).describe(),
        "directory, mode Some(493), mtime SystemTime { tv_sec: 7, tv_nsec: 0 }"
    );
    assert_eq!(
        entry(Kind::Symlink("t".to_string()), None, -3).describe(),
        "symlink to `t`, mode None, mtime SystemTime { tv_sec: -3, tv_nsec: 0 }"
    );
    assert_eq!(
        entry(data(b"abc"), None, i64::MIN).describe(),
        "file of 3 bytes, mode None, mtime SystemTime { tv_sec: -9223372036854775808, tv_nsec: 0 }"
    );
    assert!(entry(Kind::Dir, None, 1).same(&entry(Kind::Dir, None, 1)));
    assert!(!entry(Kind::Dir, None, 1).same(&entry(Kind::Dir, None, 2)));
    assert!(!entry(Kind::Dir, None, 1).same(&entry(data(b""), None, 1)));
}

#[test]
fn a_scan_reads_what_an_entry_has() {
    assert_eq!(content_to_read(true, false), ContentToRead::Nothing);
    assert_eq!(content_to_read(false, true), ContentToRead::Target);
    assert_eq!(content_to_read(false, false), ContentToRead::Data);
}

#[test]
fn paths_are_in_the_order_of_their_components() {
    assert_eq!(path("a/b").order_to(&path("a b")), Order::Before);
    assert_eq!(path("a").order_to(&path("a/b")), Order::Before);
    assert_eq!(path("b").order_to(&path("a/b")), Order::After);
    assert_eq!(path("a/b").order_to(&path("a/b")), Order::Same);
    assert_eq!(order_texts("", "a"), Order::Before);
    assert_eq!(order_texts("é", "z"), Order::After);
    assert_eq!(path("a").child("b").display(), "a/b");
}

fn snapshot(n: u128) -> SnapshotId {
    SnapshotId(Id { hi: n, lo: 0 })
}

fn files(list: &[u128]) -> Vec<Id> {
    list.iter().map(|n| Id { hi: *n, lo: 0 }).collect()
}

/// Creates a state with the saved snapshots 1 and 2.
fn state() -> State {
    let mut state = State::new(5);
    let set = |list: &[u128]| snapshot_set(&files(list));
    assert_eq!(state.backup(Ok(snapshot(1)), Some(model()), &set(&[]), &set(&[1])), Ok(()));
    assert_eq!(state.backup(Ok(snapshot(2)), Some(model()), &set(&[1]), &set(&[1, 2])), Ok(()));
    assert!(state.has_room());
    state
}

#[test]
fn a_backup_must_leave_its_snapshot_file() {
    let mut state = state();
    let set = |list: &[u128]| snapshot_set(&files(list));
    let result = state.backup(Ok(snapshot(3)), Some(model()), &set(&[1, 2]), &set(&[1, 2]));
    assert_eq!(
        result,
        Err("The snapshot files after the backup are not the files before and the new snapshot.".to_string())
    );
    assert_eq!(
        state.backup(Ok(snapshot(3)), None, &set(&[1, 2]), &set(&[1, 2, 3])),
        Err("The backup of a tree with an unreadable entry succeeded.".to_string())
    );
    assert_eq!(state.saved.len(), 2);
    assert_eq!(state.stats.get(StepName::Backup, StepOutcome::Succeeded), 4);
}

#[test]
fn a_failed_backup_must_leave_no_snapshot_file() {
    let mut state = state();
    let set = |list: &[u128]| snapshot_set(&files(list));
    let failed = || Err("no space".to_string());
    assert_eq!(state.backup(failed(), Some(model()), &set(&[1, 2]), &set(&[2, 1])), Ok(()));
    assert_eq!(
        state.backup(failed(), None, &set(&[1, 2]), &set(&[1, 2, 3])),
        Err("The failed backup changed the snapshot files. The error was:\nno space".to_string())
    );
    assert_eq!(state.stats.get(StepName::Backup, StepOutcome::Failed), 2);
    assert_eq!(state.saved.len(), 2);
}

#[test]
fn a_step_selects_a_saved_snapshot() {
    let mut state = state();
    assert_eq!(state.select(StepName::Restore, 7), Some((1, snapshot(2))));
    let mut empty = State::new(0);
    assert_eq!(empty.select(StepName::Delete, 7), None);
    assert_eq!(empty.stats.get(StepName::Delete, StepOutcome::Skipped), 1);
}

#[test]
fn a_successful_restore_must_give_the_saved_tree() {
    let mut state = state();
    let good = || Restored::Succeeded(Ok(model()));
    assert_eq!(state.restore(0, good(), Ok(()), false, DestFault::Nothing), Ok(()));
    assert_eq!(state.stats.get(StepName::Restore, StepOutcome::SucceededWithFaults), 0);
    assert_eq!(state.restore(0, good(), Ok(()), true, DestFault::Nothing), Ok(()));
    assert_eq!(state.restore(0, good(), Ok(()), false, DestFault::Volume(1)), Ok(()));
    assert_eq!(state.stats.get(StepName::Restore, StepOutcome::SucceededWithFaults), 2);
    assert_eq!(state.stats.get(StepName::Restore, StepOutcome::Succeeded), 3);
    let bad = Restored::Succeeded(Ok(Scan::new().into_model()));
    let message = state.restore(1, bad, Ok(()), true, DestFault::Nothing).unwrap_err();
    assert!(message.starts_with("The restored tree has other paths. Missing: [\"a\""));
    assert_eq!(state.restore(1, Restored::Failed, Ok(()), true, DestFault::Nothing), Ok(()));
    assert_eq!(state.stats.get(StepName::Restore, StepOutcome::Failed), 1);
    let kept = Err("still there".to_string());
    assert_eq!(
        state.restore(1, good(), kept, true, DestFault::Nothing),
        Err("still there".to_string())
    );
    let unreadable = Restored::Succeeded(Err("no directory".to_string()));
    assert_eq!(
        state.restore(1, unreadable, Ok(()), true, DestFault::Nothing),
        Err("no directory".to_string())
    );
    assert_eq!(state.stats.get(StepName::Restore, StepOutcome::SucceededWithFaults), 2);
}

#[test]
fn a_delete_removes_a_snapshot_whose_file_is_gone() {
    let mut state = state();
    let set = |list: &[u128]| snapshot_set(&files(list));
    assert_eq!(
        state.delete(0, true, &set(&[1, 2])),
        Err("The delete succeeded, but the snapshot file is still there.".to_string())
    );
    assert_eq!(state.delete(0, false, &set(&[1, 2])), Ok(()));
    assert_eq!(state.saved.len(), 2);
    // A delete can fail after it removed the file.
    assert_eq!(state.delete(0, false, &set(&[2])), Ok(()));
    assert_eq!(state.saved.len(), 1);
    assert_eq!(state.saved[0].0, snapshot(2));
    assert_eq!(state.delete(0, true, &set(&[])), Ok(()));
    assert!(state.saved.is_empty());
}

#[test]
fn the_backend_must_hold_exactly_the_saved_snapshots() {
    let state = state();
    assert_eq!(state.check_repository(&snapshot_set(&files(&[2, 1]))), Ok(()));
    for list in [&[1][..], &[1, 2, 3], &[]] {
        assert_eq!(
            state.check_repository(&snapshot_set(&files(list))),
            Err("The backend does not hold exactly the saved snapshots.".to_string())
        );
    }
    assert!(same_snapshots(&snapshot_set(&files(&[1, 1, 2])), &snapshot_set(&files(&[2, 1]))));
}

#[test]
fn each_saved_snapshot_must_restore_without_faults() {
    let state = state();
    assert_eq!(state.check_restored(0, Ok(Ok(model())), Ok(())), Ok(()));
    assert_eq!(
        state.check_restored(0, Err("broken".to_string()), Ok(())),
        Err("The restore without faults failed:\nbroken".to_string())
    );
    assert!(state.check_restored(1, Ok(Ok(Scan::new().into_model())), Ok(())).is_err());
    assert_eq!(
        state.check_restored(1, Ok(Err("unreadable".to_string())), Ok(())),
        Err("unreadable".to_string())
    );
    assert_eq!(
        state.check_restored(1, Ok(Ok(model())), Err("kept".to_string())),
        Err("kept".to_string())
    );
}

#[test]
fn a_step_must_end_without_panics() {
    let mut state = State::new(5);
    assert_eq!(state.settle(Ok(()), 5), Ok(()));
    assert_eq!(state.settle(Ok(()), 7), Err("2 threads panicked.".to_string()));
    assert_eq!(state.settle(Err("slow".to_string()), 7), Err("slow".to_string()));
    assert!(!state.create(true));
    assert!(state.create(false));
    state.prune(true);
    assert_eq!(state.stats.describe(), "init error: 1; init ok: 1; prune ok: 1; ");
}

#[test]
fn a_restore_runs_its_steps_in_order() {
    let next = |step, dest| restore_into(dest, step, Ok(()));
    let step = next(RestoreStep::Open, DestFault::Nothing);
    let step = next(step, DestFault::Nothing);
    let step = next(step, DestFault::Nothing);
    assert!(matches!(step, RestoreStep::Restore));
    assert!(matches!(next(step, DestFault::Nothing), RestoreStep::Done));
    let dest = DestFault::ReadOnlyDir(2);
    match next(RestoreStep::Prepare, dest) {
        RestoreStep::SetMode { path, mode } => {
            assert_eq!((path, mode), ("data/d0/d1", 0o555));
        }
        other => panic!("{other:?}"),
    }
    let failed = restore_into(dest, RestoreStep::FindNode, Err("missing".to_string()));
    match next(failed, dest) {
        RestoreStep::Failed(err) => assert_eq!(err, "missing"),
        other => panic!("{other:?}"),
    }
}

#[test]
fn seeds_come_from_the_environment() {
    assert_eq!(first_seed(None), Some(0x601));
    assert_eq!(case_seed(0x601, 255), Some(0x700));
    assert_eq!(case_seed(u64::MAX, 0), Some(u64::MAX));
    assert_eq!(case_seed(u64::MAX, 1), None);
    assert_eq!(first_seed(Some("42")), Some(42));
    assert_eq!(parse_seed("+7"), Some(7));
    assert_eq!(parse_seed("18446744073709551615"), Some(u64::MAX));
    assert_eq!(parse_seed("18446744073709551616"), None);
    assert_eq!(parse_seed("0018446744073709551615"), Some(u64::MAX));
    for text in ["", "+", "-1", "1 ", "0x10", "1_000", "++1"] {
        assert_eq!(parse_seed(text), None, "{text}");
        assert!(text.parse::<u64>().is_err());
    }
    assert_eq!(
        describe_failed_case(3, 1_540, "reason"),
        "Case 3 with the seed 1540 failed: reason"
    );
}

fn call(op: BackendOp) -> BackendCall {
    BackendCall { op, tpe: FileType::Pack, id: None }
}

#[test]
fn injected_faults_are_counted() {
    let rule = FaultRule {
        op: BackendOp::Write,
        tpe: None,
        fault: Fault::Truncate,
        trigger: Trigger::Nth(0),
    };
    let mut injection = Injection::inject(&vec![rule], Injected::new());
    assert_eq!(injection.fault_for(&call(BackendOp::List)), None);
    assert_eq!(injection.fault_for(&call(BackendOp::Write)), Some(Fault::Truncate));
    assert_eq!(injection.fault_for(&call(BackendOp::Write)), None);
    assert_eq!(injection.injected.load(), ([0, 0, 0, 1, 0], [0, 0, 1]));
}

#[test]
fn a_run_must_cover_all_faults() {
    let coverage = Coverage::new();
    assert_eq!(
        coverage.check(),
        Err("The run does not cover all faults. Operations without a fault: [List, ReadFull, ReadPartial, Write, Remove]. Faults never injected: [Error, Corrupt, Truncate]. Checked restores with faults: 0.".to_string())
    );
    let mut injected = Injected::new();
    for op in [BackendOp::List, BackendOp::ReadFull, BackendOp::Write, BackendOp::Remove] {
        injected.count(&call(op), Fault::Error);
    }
    injected.count(&call(BackendOp::List), Fault::Corrupt);
    let mut stats = Stats::new();
    stats.add(StepName::Restore, StepOutcome::SucceededWithFaults);
    stats.count(StepName::Backup, true);
    assert!(coverage.fits(&stats, &injected));
    let coverage = coverage.add(&stats, &injected);
    let full = Injected { ops: [usize::MAX; 5], faults: [0; 3] };
    assert!(!coverage.fits(&stats, &full));
    assert_eq!(
        coverage.check(),
        Err("The run does not cover all faults. Operations without a fault: [ReadPartial]. Faults never injected: [Truncate]. Checked restores with faults: 1.".to_string())
    );
    let mut injected = Injected::new();
    injected.count(&call(BackendOp::ReadPartial), Fault::Truncate);
    let coverage = coverage.add(&Stats::new(), &injected);
    assert_eq!(coverage.check(), Ok(()));
    assert_eq!(
        coverage.describe(),
        "backup ok: 1; restore ok with faults: 1; injected faults by operation: List 2 ReadFull 1 ReadPartial 1 Write 1 Remove 1; injected faults by kind: Error 4 Corrupt 1 Truncate 1"
    );
}
