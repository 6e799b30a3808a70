//! Counters, warnings, the runner, volumes, and the rules of the scenarios.

use std::sync::Arc;

use rustic_faults::counters::{
    ByteCounter, CountingSource, ProgressType, ReadCounter, FILE_SIZE,
};
use rustic_faults::error::{BackendCall, BackendOp, CacheStep, ErrorKind, RusticError};
use rustic_faults::fault::{Fault, INJECTED_FAULT};
use rustic_faults::file_type::{BlobType, FileType};
use rustic_faults::fixtures::{
    check_is_sparse, check_named_file, check_restored_file, content_then_zeros, expect_xattr,
    extended_attributes, files_in_own_packs, require_non_root, require_xattr_refused,
    EXTENDED_ATTRIBUTE_VALUE,
};
use rustic_faults::id::{Id, PackId};
use rustic_faults::logging::{capture_warnings, warnings_containing, Level, WarningLog};
use rustic_faults::rng::content;
use rustic_faults::runner::{
    after_count, describe, find_scenario, parse_args, run_all, run_one, wait_until_released,
    wait_with_timeout, ChildEnd, ChildWait, Command, OneResult, ReleaseWait, EXIT_FAILURE,
    EXIT_SUCCESS, EXIT_USAGE, SCENARIO_NAMES,
};
use rustic_faults::scenarios::{
    backup_bounds, backup_stops_after_first_error, check_default_reader_threads,
    check_prune_panics, check_reader_threads, expect_no_snapshot, is_pack_read, last_blob,
    pack_fault, pack_read_scenario, prune_stops_after_first_error, skips_unreadable_file,
    stops_after_first_error, write_stops_after_first_error, FileBlob, MetadataCase, ReaderThreads,
    SHORT_READ,
};
use rustic_faults::sorted::SortedMap;
use rustic_faults::text;
use rustic_faults::tree_path::TreePath;
use rustic_faults::volume::{id_map, write_id_maps, Tmpfs};

#[test]
fn bytes_of_a_progress_are_counted() {
    let mut counter = ByteCounter::default();
    counter.inc(5);
    counter.inc(7);
    assert_eq!(counter.bytes(), 12);
    counter.inc(u64::MAX);
    assert_eq!(counter.bytes(), 11);
    assert!(ByteCounter::progress(ProgressType::Bytes));
    assert!(!ByteCounter::progress(ProgressType::Spinner));
    assert!(!ByteCounter::progress(ProgressType::Counter));
}

#[test]
fn open_files_are_counted() {
    let mut source = CountingSource::new(3);
    let mut entries = source.entries().into_iter();
    let mut open = || entries.next().unwrap().node.open;
    let mut counter = ReadCounter::default();
    let first = open().open(&mut counter);
    let second = open().open(&mut counter);
    first.close(&mut counter);
    let third = open().open(&mut counter);
    assert_eq!((counter.opened(), counter.peak(), counter.live()), (3, 2, 2));
    second.close(&mut counter);
    third.close(&mut counter);
    assert_eq!((counter.opened(), counter.peak(), counter.live()), (3, 2, 0));
    assert_eq!(source.counter().opened(), 0);
    source.counter = counter;
    assert_eq!(source.counter().opened(), 3);
    assert_eq!(source.size(), None);
}

#[test]
fn a_counting_source_has_fixed_files() {
    let entries = CountingSource::new(1_001).entries();
    assert_eq!(entries.len(), 1_001);
    assert_eq!(entries[7].path, vec!["source".to_string(), "f007".to_string()]);
    assert_eq!(entries[1_000].node.name, "f1000");
    assert_eq!(entries[7].node.size, 1_000);
    assert!(!entries[7].is_dir);
    let mut counter = ReadCounter::default();
    let entry = CountingSource::entry(7);
    let mut reader = entry.node.open.open(&mut counter);
    let (start, pause) = reader.read(10);
    assert_eq!(start[..], content(7, FILE_SIZE)[..10]);
    assert!(pause);
    let (rest, pause) = reader.read(5_000);
    assert_eq!(rest[..], content(7, FILE_SIZE)[10..]);
    assert!(!pause);
    assert!(reader.read(1).0.is_empty());
}

#[test]
fn warnings_are_kept_and_counted() {
    let mut log = WarningLog::new();
    log.log(Level::Warn, "ignoring error: a");
    log.log(Level::Info, "ignoring error: b");
    log.log(Level::Error, "an error");
    log.log(Level::Debug, "ignoring error: c");
    log.log(Level::Trace, "ignoring error: d");
    log.log(Level::Warn, "ignoring error: a");
    assert_eq!(log.warnings_containing("ignoring error"), 2);
    assert_eq!(log.warnings_containing("error"), 3);
    assert_eq!(log.warnings_containing("b"), 0);
    assert_eq!(log.warnings_containing(""), 3);
    let list = vec!["abc".to_string(), "xbx".to_string()];
    assert_eq!(warnings_containing(&list, "b"), 2);
    assert_eq!(warnings_containing(&list, "bc"), 1);
    assert_eq!(capture_warnings(true), Ok(()));
    assert_eq!(
        capture_warnings(false),
        Err("This process has another logger, so the scenario cannot count the warnings.".to_string())
    );
}

fn args(list: &[&str]) -> Vec<String> {
    list.iter().map(|text| text.to_string()).collect()
}

#[test]
fn the_runner_takes_one_option() {
    assert!(matches!(parse_args(&args(&[])), Command::RunAll));
    match parse_args(&args(&["--scenario", "restore-decrypt"])) {
        Command::RunOne(name) => assert_eq!(name, "restore-decrypt"),
        other => panic!("{other:?}"),
    }
    for list in [&["--scenario"][..], &["restore-decrypt"], &["--help", "x"], &["a", "b", "c"]] {
        assert!(matches!(parse_args(&args(list)), Command::Usage));
    }
}

#[test]
fn the_runner_finds_each_scenario() {
    for (index, name) in SCENARIO_NAMES.iter().enumerate() {
        assert_eq!(find_scenario(name), Some(index));
    }
    assert_eq!(find_scenario("restore"), None);
    assert_eq!(SCENARIO_NAMES.len(), 29);
}

#[test]
fn one_scenario_gives_an_exit_code() {
    assert_eq!(run_one("x", &OneResult::Passed), (EXIT_SUCCESS, None));
    assert_eq!(
        run_one("x", &OneResult::Unknown),
        (EXIT_USAGE, Some("Unknown scenario `x`.".to_string()))
    );
    assert_eq!(
        run_one("x", &OneResult::Failed("why".to_string())),
        (EXIT_FAILURE, Some("Scenario `x` failed: why".to_string()))
    );
}

#[test]
fn the_runner_describes_each_child_process() {
    assert_eq!(describe(&ChildEnd::Passed), "passed");
    let signal = ChildEnd::Failed("signal: 6 (SIGABRT)".to_string());
    assert_eq!(describe(&signal), "FAILED (signal: 6 (SIGABRT))");
    assert_eq!(
        describe(&ChildEnd::TimedOut),
        "FAILED (the child process did not stop in 1200 seconds)"
    );
    let missing = ChildEnd::NotStarted("no file".to_string());
    assert_eq!(describe(&missing), "FAILED (the child process did not start: no file)");
    let ends = vec![ChildEnd::Passed, signal, ChildEnd::TimedOut, missing];
    assert_eq!(run_all(&ends), (EXIT_FAILURE, "4 scenarios, 3 failed".to_string()));
    let ends = vec![ChildEnd::Passed];
    assert_eq!(run_all(&ends), (EXIT_SUCCESS, "1 scenarios, 0 failed".to_string()));
    assert_eq!(wait_with_timeout(false, false), ChildWait::Take);
    assert_eq!(wait_with_timeout(true, true), ChildWait::Again);
    assert_eq!(wait_with_timeout(true, false), ChildWait::Kill);
}

#[test]
fn wait_until_released_fails_after_the_timeout() {
    let value = Arc::new(());
    let _clone = Arc::clone(&value);
    assert!(matches!(wait_until_released(&value, true, "50ms"), ReleaseWait::Again));
    match wait_until_released(&value, false, "50ms") {
        ReleaseWait::Failed(message) => {
            assert_eq!(message, "1 other strong references exist after 50ms");
        }
        other => panic!("{other:?}"),
    }
}

#[test]
fn a_released_value_ends_the_wait() {
    let value = Arc::new(5);
    let clone = Arc::clone(&value);
    assert!(matches!(wait_until_released(&value, true, "1s"), ReleaseWait::Again));
    drop(clone);
    assert!(matches!(wait_until_released(&value, true, "1s"), ReleaseWait::Released));
    assert!(matches!(wait_until_released(&value, false, "1s"), ReleaseWait::Released));
    assert!(matches!(after_count(3, true, "1s"), ReleaseWait::Again));
}

#[test]
fn a_volume_has_its_options_and_its_maps() {
    assert_eq!(Tmpfs::options(256_000), "size=256000");
    assert_eq!(Tmpfs::mounted("/mnt/x").path(), "/mnt/x");
    assert_eq!(id_map(1_000), "1000 1000 1");
    let files = write_id_maps(7, 8);
    let found: Vec<(&str, &str)> =
        files.iter().map(|file| (file.path, file.content.as_str())).collect();
    assert_eq!(
        found,
        vec![
            ("/proc/self/uid_map", "7 7 1"),
            ("/proc/self/setgroups", "deny"),
            ("/proc/self/gid_map", "8 8 1"),
        ]
    );
}

#[test]
fn files_in_own_packs_have_names_and_contents() {
    assert_eq!(files_in_own_packs(1, u64::MAX)[0].data, content(u64::MAX, 4_000));
    assert!(files_in_own_packs(0, u64::MAX).is_empty());
    let files = files_in_own_packs(40, 100);
    assert_eq!(files.len(), 40);
    assert_eq!(files[3].name, "f03");
    assert_eq!(files[39].name, "f39");
    assert_eq!(files[39].data, content(139, 4_000));
    assert_ne!(files[1].data, files[2].data);
}

#[test]
fn a_sparse_file_ends_in_zeros() {
    let data = content_then_zeros(9, 100, 50);
    assert_eq!(data.len(), 150);
    assert_eq!(data[..100], content(9, 100)[..]);
    assert!(data[100..].iter().all(|byte| *byte == 0));
    assert_eq!(check_is_sparse(2, 1_025), Ok(()));
    assert_eq!(
        check_is_sparse(2, 1_024),
        Err("The restored file uses 1024 bytes in 2 blocks for 1024 bytes. A sparse file uses less.".to_string())
    );
}

#[test]
fn restored_files_must_be_equal() {
    let (a, b) = (vec![1, 2], vec![1, 3]);
    assert_eq!(check_restored_file(&a, &a), Ok(()));
    assert_eq!(
        check_restored_file(&a, &b),
        Err("The restored file is not equal to the saved file.".to_string())
    );
    assert_eq!(
        check_restored_file(&vec![1], &b),
        Err("The restored file has 1 bytes. The saved file has 2 bytes.".to_string())
    );
    assert_eq!(check_named_file("sub/b", &a, &a), Ok(()));
    assert_eq!(
        check_named_file("sub/b", &a, &b),
        Err("The restored file `sub/b` is not equal to the saved file.".to_string())
    );
}

#[test]
fn extended_attributes_have_a_serialized_form() {
    assert_eq!(
        extended_attributes(&args(&["golem", "user.a"])),
        r#"[{"name":"golem","value":"eA=="},{"name":"user.a","value":"eA=="}]"#
    );
    assert_eq!(extended_attributes(&args(&[])), "[]");
    let value = EXTENDED_ATTRIBUTE_VALUE.to_vec();
    assert_eq!(value, b"x");
    assert_eq!(expect_xattr("/f", "user.a", Some(&value), Some(&value)), Ok(()));
    assert_eq!(expect_xattr("/f", "user.a", None, None), Ok(()));
    assert_eq!(
        expect_xattr("/f", "user.a", None, Some(&value)),
        Err("The extended attribute `user.a` of `/f` is None, but Some([120]) was expected.".to_string())
    );
    assert_eq!(
        expect_xattr("/f", "user.a", Some(&vec![1, 2]), None),
        Err("The extended attribute `user.a` of `/f` is Some([1, 2]), but None was expected.".to_string())
    );
    assert_eq!(require_xattr_refused("/f", "security.x", true), Ok(()));
    assert!(require_xattr_refused("/f", "security.x", false)
        .unwrap_err()
        .starts_with("This kernel lets this process set the extended attribute `security.x` on `/f`."));
}

#[test]
fn some_scenarios_need_another_user_than_root() {
    assert_eq!(require_non_root(false), Ok(()));
    assert!(require_non_root(true).unwrap_err().starts_with("This scenario needs a user other"));
}

#[test]
fn faults_go_into_pack_reads() {
    let call = |op, tpe| BackendCall { op, tpe, id: None };
    let pack = call(BackendOp::ReadPartial, FileType::Pack);
    assert!(is_pack_read(&pack));
    assert!(!is_pack_read(&call(BackendOp::ReadFull, FileType::Pack)));
    assert!(!is_pack_read(&call(BackendOp::ReadPartial, FileType::Index)));
    assert_eq!(pack_fault(&pack, Fault::Corrupt), Some(Fault::Corrupt));
    assert_eq!(pack_fault(&call(BackendOp::List, FileType::Pack), Fault::Error), None);
    assert_eq!(pack_read_scenario(Fault::Error).expected, INJECTED_FAULT);
    assert_eq!(pack_read_scenario(Fault::Truncate).expected, SHORT_READ);
    assert_eq!(pack_read_scenario(Fault::Corrupt).expected, "Data decryption failed");
}

#[test]
fn a_restore_reads_one_pack_for_each_thread_after_an_error() {
    assert_eq!(stops_after_first_error(40, 4, 4), Ok(()));
    assert_eq!(
        stops_after_first_error(40, 5, 4),
        Err("The restore read 5 of 40 packs. The maximum is 4 reads.".to_string())
    );
    assert_eq!(
        stops_after_first_error(4, 1, 4),
        Err("The snapshot uses 4 packs. The check needs more than 4 packs.".to_string())
    );
}

fn blob(name: &str, pack: u128, offset: u32) -> FileBlob {
    let path = TreePath::new(vec!["data".to_string(), name.to_string()]);
    FileBlob { path, pack: PackId(Id { hi: 0, lo: pack }), offset }
}

#[test]
fn the_last_blob_of_a_pack_is_written_first() {
    let blobs = vec![blob("a", 1, 5), blob("b", 1, 9), blob("c", 1, 9), blob("d", 1, 0)];
    assert_eq!(last_blob(&blobs, 4), Ok(2));
    let message = "The check needs the blobs of all files in one pack.".to_string();
    assert_eq!(last_blob(&blobs, 5), Err(message.clone()));
    let two_packs = vec![blob("a", 1, 5), blob("b", 2, 9)];
    assert_eq!(last_blob(&two_packs, 2), Err(message));
    assert_eq!(last_blob(&Vec::new(), 0), Err("the snapshot has no file".to_string()));
    let created = |list: [bool; 4]| write_stops_after_first_error(&blobs, 2, &list.to_vec());
    assert_eq!(created([false, false, true, false]), Ok(()));
    assert_eq!(
        created([false, true, true, true]),
        Err("The restore created `data/b` after the write of `data/c` failed.".to_string())
    );
}

#[test]
fn reader_threads_have_limits() {
    assert_eq!(check_reader_threads(3, 3, 3), Ok(()));
    assert_eq!(
        check_reader_threads(4, 3, 3),
        Err("4 threads read packs, and 3 reads overlapped. The maximum is 3.".to_string())
    );
    assert!(check_reader_threads(1, 4, 3).is_err());
    assert_eq!(check_default_reader_threads(4, 20), Ok(()));
    assert_eq!(check_default_reader_threads(20, 1), Ok(()));
    assert!(check_default_reader_threads(21, 20).is_err());
    assert_eq!(
        check_default_reader_threads(3, 2),
        Err("3 threads read packs, and 2 reads overlapped. The default needs at least 4 and at most 20 threads.".to_string())
    );
}

#[test]
fn overlapping_pack_reads_are_counted() {
    let pack = BackendCall { op: BackendOp::ReadPartial, tpe: FileType::Pack, id: None };
    let list = BackendCall { op: BackendOp::List, ..pack };
    let mut threads = ReaderThreads::new();
    assert!(!threads.begin(&pack, 1, 1));
    assert!(!threads.begin(&list, 2, 1));
    assert!(threads.begin(&pack, 2, 1));
    assert!(threads.begin(&pack, 3, 1));
    threads.end();
    assert!(threads.begin(&pack, 2, 1));
    threads.end();
    threads.end();
    assert_eq!((threads.readers(), threads.most()), (2, 2));
}

#[test]
fn prunes_and_backups_stop_after_the_first_error() {
    assert_eq!(prune_stops_after_first_error(10, 40), Ok(()));
    assert_eq!(
        prune_stops_after_first_error(11, 40),
        Err("The prune read 11 of 40 trees. The maximum is 10 reads.".to_string())
    );
    assert_eq!(check_prune_panics(3, 3), Ok(()));
    assert_eq!(
        check_prune_panics(3, 5),
        Err("2 threads panicked while the prune stopped.".to_string())
    );
    assert_eq!(backup_bounds(8), (18, 180));
    assert_eq!(backup_stops_after_first_error(1_899, 100, 180, 18), Ok(()));
    assert_eq!(
        backup_stops_after_first_error(1_900, 100, 180, 18),
        Err("The backup read 19 of 180 files after the first error. The bound is 18.".to_string())
    );
    assert_eq!(expect_no_snapshot(0), Ok(()));
    assert_eq!(
        expect_no_snapshot(2),
        Err("The failed backup wrote 2 snapshot files.".to_string())
    );
}

#[test]
fn a_backup_without_the_option_skips_the_unreadable_file() {
    let names = |list: &[&str]| {
        list.iter()
            .map(|text| TreePath::new(text.split('/').map(str::to_string).collect()))
            .collect::<Vec<_>>()
    };
    assert_eq!(skips_unreadable_file(&names(&["data", "data/a", "data/bb"]), 1), Ok(()));
    assert_eq!(
        skips_unreadable_file(&names(&["data", "data/b"]), 1),
        Err("The snapshot contains the unreadable file `b`.".to_string())
    );
    assert_eq!(
        skips_unreadable_file(&names(&["data"]), 0),
        Err("The backend does not hold one snapshot file.".to_string())
    );
}

#[test]
fn metadata_cases_have_their_errors() {
    assert_eq!(MetadataCase::Ownership.expected(), "cannot set the owner");
    assert_eq!(MetadataCase::Permission.expected(), "cannot set the permissions");
    assert_eq!(MetadataCase::ExtendedAttributes.expected(), "cannot set the extended attributes");
    assert_eq!(MetadataCase::Times.expected(), "cannot set the times");
    assert_eq!(MetadataCase::Times.errors_are_warnings(Ok(())), Ok(()));
    assert_eq!(
        MetadataCase::Times.errors_are_warnings(Err("refused".to_string())),
        Err("The case for `cannot set the times` failed without the option:\nrefused".to_string())
    );
}

#[test]
fn ids_have_hexadecimal_names() {
    let id = Id { hi: 0x0123_4567_89ab_cdef << 64, lo: 0xf };
    let hex = id.to_hex();
    assert_eq!(hex, format!("0123456789abcdef{}f", "0".repeat(47)));
    assert_eq!(id.hex_prefix(), "01");
    assert_eq!(Id::from_hex(&hex), Some(id));
    assert_eq!(Id::from_hex(&hex.to_uppercase()), None);
    assert_eq!(Id::from_hex(&hex[1..]), None);
    assert_eq!(Id::from_hex(&"g".repeat(64)), None);
    let other = Id { hi: 0, lo: u128::MAX };
    assert_eq!(Id::from_hex(&other.to_hex()), Some(other));
}

#[test]
fn a_sorted_map_keeps_its_order() {
    let mut map: SortedMap<u64, &str> = SortedMap::new();
    assert_eq!(map.insert(5, "five"), None);
    assert_eq!(map.insert(1, "one"), None);
    assert_eq!(map.insert(3, "three"), None);
    assert_eq!(map.insert(3, "drei"), Some("three"));
    assert_eq!(map.len(), 3);
    assert_eq!(map.entry(1), (&3, &"drei"));
    assert_eq!(map.remove(&1), Some("one"));
    assert_eq!(map.remove(&1), None);
    assert_eq!(map.get(&5), Some(&"five"));
    assert!(!map.contains_key(&1));
}

#[test]
fn texts_of_numbers_and_lists() {
    assert_eq!(text::decimal_text(0), "0");
    assert_eq!(text::decimal_text(u64::MAX), "18446744073709551615");
    let mut out = String::new();
    text::push_decimal_padded(&mut out, 7, 3);
    text::push_decimal_padded(&mut out, 12_345, 3);
    assert_eq!(out, "00712345");
    assert!(text::contains("abcabd", "abd"));
    assert!(!text::contains("ab", "abc"));
    assert_eq!(text::list(&args(&["a", "b"])), "[a, b]");
    assert_eq!(text::list(&args(&[])), "[]");
}

#[test]
fn errors_have_kinds_and_messages() {
    let id = Id { hi: 0, lo: 0 };
    let other = RusticError::Other { kind: ErrorKind::Other, message: "text".to_string() };
    assert_eq!((other.kind(), other.to_string()), (ErrorKind::Other, "text".to_string()));
    let file = RusticError::CacheFile {
        step: CacheStep::Seek { offset: 9 },
        path: "/p".to_string(),
        source: "io".to_string(),
    };
    assert_eq!(file.kind(), ErrorKind::InputOutput);
    assert_eq!(file.to_string(), "Failed to seek to `9` in file `/p`");
    let short = RusticError::ShortFile {
        tpe: FileType::Index,
        id,
        file_length: 3,
        offset: 1,
        length: 4,
    };
    assert!(short.to_string().ends_with("has `3` bytes. The read needs `4` bytes at the offset `1`."));
    assert_eq!(FileType::Snapshot.dirname(), "snapshots");
    assert_eq!(FileType::Key.dirname(), "keys");
    assert_eq!(FileType::Pack.dirname(), "data");
    assert_eq!(BlobType::Tree.name(), "Tree");
}
