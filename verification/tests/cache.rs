//! The cache, with its files in a map.

use std::collections::HashMap;

use bytes::Bytes;
use rustic_faults::backend::{ReadBackend, WriteBackend};
use rustic_faults::buffer::BytesList;
use rustic_faults::cache::{
    Cache, Found, NewStep, Outcome, PartOutcome, PartStep, WalkEntry, WalkError, WalkItem,
    WriteStep,
};
use rustic_faults::cached::{Cached, CachedBackend};
use rustic_faults::error::{ErrorKind, RusticError, RusticResult};
use rustic_faults::file_type::{BlobType, FileType};
use rustic_faults::id::Id;
use rustic_faults::in_memory::InMemoryBackend;
use rustic_faults::paths;
use rustic_faults::sorted::SortedMap;

/// The content of the cached file of these tests.
const CACHED: &[u8] = b"0123456789";

type Disk = HashMap<String, Vec<u8>>;

const REPOSITORY: Id = Id { hi: 1, lo: 2 };
const FILE: Id = Id { hi: 0x12 << 120, lo: 3 };

/// Runs the creation of a cache in the directory `/cache`.
fn new_cache() -> Cache {
    let mut step = Cache::new(Some("/cache".to_string()), None);
    loop {
        step = match step {
            NewStep::Done(cache) => return cache,
            NewStep::Failed(err) => panic!("{}", err.to_string()),
            step => Cache::new_next(REPOSITORY, step, Outcome::Done),
        };
    }
}

/// Writes a file to the cache.
fn write(cache: &Cache, disk: &mut Disk, tpe: FileType, id: &Id, content: &[u8]) -> RusticResult<()> {
    let mut step = cache.write_bytes(tpe, id);
    loop {
        match &step {
            WriteStep::WriteTemp { path } => _ = disk.insert(path.clone(), content.to_vec()),
            WriteStep::RemoveTemp { path, .. } => _ = disk.remove(path),
            WriteStep::Move { from, to } => {
                let data = disk.remove(from).unwrap();
                _ = disk.insert(to.clone(), data);
            }
            WriteStep::CreateDirs { .. } => {}
            WriteStep::Done => return Ok(()),
            WriteStep::Failed(err) => return Err(err.clone()),
        }
        step = cache.write_bytes_next(tpe, id, step, Outcome::Done);
    }
}

/// Reads a part of a file of the cache.
fn read_partial(
    cache: &Cache,
    disk: &Disk,
    id: &Id,
    offset: u32,
    length: u32,
) -> RusticResult<Option<Bytes>> {
    let tpe = FileType::Pack;
    let mut step = cache.read_partial(tpe, id);
    let path = cache.path(tpe, id);
    let mut position = 0;
    loop {
        let outcome = match &step {
            PartStep::Open { path } if disk.contains_key(path) => PartOutcome::Done,
            PartStep::Open { .. } => PartOutcome::NotFound,
            PartStep::Size => PartOutcome::Size(disk[&path].len() as u64),
            PartStep::Seek { offset } => {
                position = *offset as usize;
                PartOutcome::Done
            }
            PartStep::Read { length } => {
                PartOutcome::Data(disk[&path][position..position + *length as usize].to_vec())
            }
            PartStep::Done(_) => PartOutcome::Done,
        };
        if let PartStep::Done(result) = step {
            return result;
        }
        step = cache.read_partial_next(tpe, id, offset, length, step, outcome);
    }
}

/// Creates a cache that holds one pack file with [`CACHED`] as its content.
fn cache_with_a_pack() -> (Cache, Id, Disk) {
    let cache = new_cache();
    let mut disk = Disk::new();
    write(&cache, &mut disk, FileType::Pack, &FILE, CACHED).unwrap();
    (cache, FILE, disk)
}

#[test]
fn read_partial_gives_a_part_inside_the_file() {
    let (cache, id, disk) = cache_with_a_pack();

    let part = read_partial(&cache, &disk, &id, 2, 3).unwrap();

    assert_eq!(part, Some(Bytes::from_static(b"234")));
}

#[test]
fn read_partial_gives_a_part_that_ends_at_the_end_of_the_file() {
    let (cache, id, disk) = cache_with_a_pack();

    let part = read_partial(&cache, &disk, &id, 2, 8).unwrap();

    assert_eq!(part, Some(Bytes::from_static(b"23456789")));
}

#[test]
fn read_partial_fails_for_a_part_that_ends_after_the_file() {
    let (cache, id, disk) = cache_with_a_pack();

    let err = read_partial(&cache, &disk, &id, 2, 9).unwrap_err();

    // The message of the range check, not the message of a read that finds the end of the file.
    let text = err.to_string();
    assert!(text.contains("The read needs `9` bytes at the offset `2`"), "{text}");
    assert!(text.contains("has `10` bytes"), "{text}");
    assert_eq!(err.kind(), ErrorKind::InputOutput);
}

#[test]
fn read_partial_of_a_range_that_does_not_fit_32_bits_fails() {
    let (cache, id, disk) = cache_with_a_pack();
    let err = read_partial(&cache, &disk, &id, u32::MAX, u32::MAX).unwrap_err();
    assert!(err.to_string().contains("The read needs `4294967295` bytes"));
}

#[test]
fn read_partial_of_a_missing_file_gives_nothing() {
    let (cache, _, disk) = cache_with_a_pack();
    let other = Id { hi: 5, lo: 5 };
    assert_eq!(read_partial(&cache, &disk, &other, 0, 1).unwrap(), None);
}

#[test]
fn a_write_leaves_only_the_complete_file() {
    let (cache, id, disk) = cache_with_a_pack();
    let hex = id.to_hex();
    let path = format!("/cache/{}/data/12/{hex}", REPOSITORY.to_hex());
    assert_eq!(cache.path(FileType::Pack, &id), path);
    assert_eq!(cache.temp_path(FileType::Pack, &id), format!("{path}-tmp-"));
    assert_eq!(disk.keys().collect::<Vec<_>>(), vec![&path]);
    assert_eq!(disk[&path], CACHED);
}

#[test]
fn a_failed_write_removes_its_temporary_file() {
    let cache = new_cache();
    let tpe = FileType::Index;
    let step = cache.write_bytes(tpe, &FILE);
    let step = cache.write_bytes_next(tpe, &FILE, step, Outcome::Done);
    let full = Outcome::Failed("disk full".to_string());
    let step = cache.write_bytes_next(tpe, &FILE, step, full);
    let temp = cache.temp_path(tpe, &FILE);
    match &step {
        WriteStep::RemoveTemp { path, .. } => assert_eq!(*path, temp),
        other => panic!("{other:?}"),
    }
    let removal = Outcome::Failed("gone".to_string());
    match cache.write_bytes_next(tpe, &FILE, step, removal) {
        WriteStep::Failed(err) => {
            assert_eq!(err.to_string(), format!("Failed to write to the buffer: `{temp}`."));
        }
        other => panic!("{other:?}"),
    }
}

#[test]
fn each_failure_of_a_write_has_its_message() {
    let cache = new_cache();
    let tpe = FileType::Snapshot;
    let fail = || Outcome::Failed("no".to_string());
    let dirs = cache.write_bytes(tpe, &FILE);
    match cache.write_bytes_next(tpe, &FILE, dirs, fail()) {
        WriteStep::Failed(err) => assert_eq!(
            err.to_string(),
            format!("Failed to create directories at `{}`", cache.dir(tpe, &FILE))
        ),
        other => panic!("{other:?}"),
    }
    let temp = cache.temp_path(tpe, &FILE);
    let open = WriteStep::WriteTemp { path: temp.clone() };
    match cache.write_bytes_next(tpe, &FILE, open, Outcome::OpenFailed("no".to_string())) {
        WriteStep::RemoveTemp { err, .. } => {
            assert_eq!(err.to_string(), format!("Failed to open the file `{temp}`."));
        }
        other => panic!("{other:?}"),
    }
    let path = cache.path(tpe, &FILE);
    let moved = WriteStep::Move { from: temp.clone(), to: path.clone() };
    match cache.write_bytes_next(tpe, &FILE, moved, fail()) {
        WriteStep::Failed(err) => {
            assert_eq!(err.to_string(), format!("Failed to move `{temp}` to `{path}`"));
        }
        other => panic!("{other:?}"),
    }
}

#[test]
fn each_failure_of_a_read_has_its_message() {
    let cache = new_cache();
    let tpe = FileType::Pack;
    let path = cache.path(tpe, &FILE);
    let message = |step: PartStep| {
        let fail = PartOutcome::Failed("no".to_string());
        match cache.read_partial_next(tpe, &FILE, 7, 3, step, fail) {
            PartStep::Done(Err(err)) => {
                assert_eq!(err.kind(), ErrorKind::InputOutput);
                err.to_string()
            }
            other => panic!("{other:?}"),
        }
    };
    assert_eq!(
        message(PartStep::Open { path: path.clone() }),
        format!("Failed to open file at `{path}`")
    );
    assert_eq!(
        message(PartStep::Size),
        format!("Failed to read the size of the file `{path}`")
    );
    assert_eq!(
        message(PartStep::Seek { offset: 7 }),
        format!("Failed to seek to `7` in file `{path}`")
    );
    assert_eq!(
        message(PartStep::Read { length: 3 }),
        format!("Failed to read at offset `7` from file at `{path}`")
    );
    let full = cache.read_full(tpe, &FILE, Found::Failed("no".to_string())).unwrap_err();
    assert_eq!(full.to_string(), format!("Failed to read full data of file at `{path}`"));
    let removed = cache.remove(tpe, &FILE, Outcome::Failed("no".to_string())).unwrap_err();
    assert_eq!(removed.to_string(), format!("Failed to remove file at `{path}`"));
    assert!(cache.remove(tpe, &FILE, Outcome::Done).is_ok());
}

#[test]
fn read_full_gives_the_file_or_nothing() {
    let cache = new_cache();
    let tpe = FileType::Index;
    let found = cache.read_full(tpe, &FILE, Found::Done(vec![1, 2])).unwrap();
    assert_eq!(found, Some(Bytes::from_static(&[1, 2])));
    assert_eq!(cache.read_full(tpe, &FILE, Found::NotFound).unwrap(), None);
}

#[test]
fn the_default_directory_holds_the_caches() {
    match Cache::new(None, Some("/home/user/.cache".to_string())) {
        NewStep::CreateRoot { path } => assert_eq!(path, "/home/user/.cache/rustic"),
        other => panic!("{other:?}"),
    }
    match Cache::new(None, None) {
        NewStep::Failed(err) => {
            assert_eq!(err.kind(), ErrorKind::Backend);
            assert_eq!(
                err.to_string(),
                "Cache directory could not be determined, please set the environment variable XDG_CACHE_HOME or HOME!"
            );
        }
        other => panic!("{other:?}"),
    }
    assert_eq!(new_cache().location(), format!("/cache/{}", REPOSITORY.to_hex()));
}

#[test]
fn each_failure_of_a_creation_has_its_message() {
    let fail = || Outcome::Failed("no".to_string());
    let message = |step| match Cache::new_next(REPOSITORY, step, fail()) {
        NewStep::Failed(err) => err.to_string(),
        other => panic!("{other:?}"),
    };
    let path = || "/c".to_string();
    assert_eq!(
        message(NewStep::CreateRoot { path: path() }),
        "Failed to create cache directory at `/c`"
    );
    assert_eq!(
        message(NewStep::EnsureTag { path: path() }),
        "Failed to ensure cache directory tag at `/c`"
    );
    assert_eq!(
        message(NewStep::CreateRepository { path: path() }),
        format!("Failed to create cache directory with id `{}` at `/c`", REPOSITORY.to_hex())
    );
}

fn walk_entry(is_file: bool, name: &str, size: Option<u64>) -> WalkItem {
    WalkItem::Entry(WalkEntry { is_file, name: Some(name.to_string()), size })
}

fn walk_error(depth: usize, not_found: bool) -> WalkItem {
    WalkItem::Error(WalkError { depth, not_found, message: format!("error at {depth}") })
}

#[test]
fn a_listing_holds_only_files_with_hexadecimal_names() {
    let (a, b) = (Id { hi: 1, lo: 1 }, Id { hi: 2, lo: 2 });
    let upper = a.to_hex().replace('0', "A");
    let entries = vec![
        walk_entry(true, &a.to_hex(), Some(5)),
        walk_entry(true, &b.to_hex(), None),
        walk_entry(false, &Id { hi: 3, lo: 3 }.to_hex(), Some(5)),
        walk_entry(true, &upper, Some(5)),
        walk_entry(true, &format!("{}-tmp-", a.to_hex()), Some(5)),
        walk_entry(true, "CACHEDIR.TAG", Some(5)),
        WalkItem::Entry(WalkEntry { is_file: true, name: None, size: Some(1) }),
        walk_entry(true, &Id { hi: 4, lo: 4 }.to_hex(), Some(1 << 32)),
    ];
    let list = new_cache().list_with_size(FileType::Index, &entries).unwrap();
    assert_eq!(list.len(), 3);
    assert_eq!(list.get(&a), Some(&5));
    assert_eq!(list.get(&b), Some(&0));
    assert_eq!(list.get(&Id { hi: 4, lo: 4 }), Some(&0));
}

#[test]
fn a_missing_directory_lists_no_files() {
    let list = new_cache().list_with_size(FileType::Index, &vec![walk_error(0, true)]).unwrap();
    assert_eq!(list.len(), 0);
}

#[test]
fn a_directory_that_cannot_be_read_fails_the_listing() {
    let cache = new_cache();
    for (failed, message) in [((0, false), "error at 0"), ((1, true), "error at 1")] {
        let walk = vec![
            walk_error(0, true),
            walk_entry(true, &FILE.to_hex(), Some(5)),
            walk_error(failed.0, failed.1),
            walk_error(7, false),
        ];
        let err = cache.list_with_size(FileType::Index, &walk).unwrap_err();
        assert_eq!(err.kind(), ErrorKind::InputOutput);
        match err {
            RusticError::CacheFile { path, source, .. } => {
                assert_eq!(path, cache.type_dir(FileType::Index));
                assert_eq!(source, message);
            }
            other => panic!("{other:?}"),
        }
    }
    let failed = || cache.list_with_size(FileType::Index, &vec![walk_error(0, false)]);
    assert_eq!(
        failed().unwrap_err().to_string(),
        format!("Failed to list the files at `{}`", cache.type_dir(FileType::Index))
    );
    let stale = Cache::remove_not_in_list(failed(), &vec![(FILE, 5)]);
    assert!(matches!(stale, Err(RusticError::CacheFile { .. })));
}

/// Lists the index files of the cache on `disk`.
fn list(cache: &Cache, disk: &Disk) -> SortedMap<Id, u32> {
    let dir = cache.type_dir(FileType::Index) + "/";
    let walk = disk
        .iter()
        .filter(|(path, _)| path.starts_with(&dir))
        .map(|(path, data)| {
            walk_entry(true, path.rsplit('/').next().unwrap(), Some(data.len() as u64))
        })
        .collect();
    cache.list_with_size(FileType::Index, &walk).unwrap()
}

#[test]
fn a_write_updates_the_listing() {
    let (cache, mut disk) = (new_cache(), Disk::new());
    let other = Id { hi: 5, lo: 5 };
    write(&cache, &mut disk, FileType::Index, &other, b"other").unwrap();
    assert_eq!(list(&cache, &disk).get(&FILE), None);
    // While a write is not complete, only its temporary file is there.
    _ = disk.insert(cache.temp_path(FileType::Index, &FILE), b"n".to_vec());
    assert_eq!(list(&cache, &disk).len(), 1);
    for content in [&b"new"[..], &b"newer"[..]] {
        write(&cache, &mut disk, FileType::Index, &FILE, content).unwrap();
        write(&cache, &mut disk, FileType::Snapshot, &FILE, b"snapshot").unwrap();
        let files = list(&cache, &disk);
        assert_eq!(files.len(), 2);
        assert_eq!(files.get(&FILE), Some(&(content.len() as u32)));
        assert_eq!(files.get(&other), Some(&5));
    }
}

#[test]
fn files_that_the_backend_does_not_list_leave_the_cache() {
    let ids: Vec<Id> = (1..=4).map(|n| Id { hi: n, lo: 0 }).collect();
    let mut cached = SortedMap::new();
    for (id, size) in ids.iter().zip([10, 20, 30, 40]) {
        _ = cached.insert(*id, size);
    }
    let list = vec![(ids[2], 30), (ids[1], 21), (Id { hi: 9, lo: 0 }, 5), (ids[1], 20)];
    let mut stale = Cache::remove_not_in_list(Ok(cached), &list).unwrap();
    stale.sort_by_key(|id| id.hi);
    assert_eq!(stale, vec![ids[0], ids[1], ids[3]]);
}

#[test]
fn paths_join_with_one_separator() {
    assert_eq!(paths::join("/a", "b"), "/a/b");
    assert_eq!(paths::join("/", "b"), "/b");
    assert_eq!(paths::join("", "b"), "b");
}

fn cached_backend(data: &'static [u8]) -> CachedBackend<InMemoryBackend> {
    let mut be = InMemoryBackend::new();
    for tpe in [FileType::Pack, FileType::Index] {
        be.write_bytes(tpe, &FILE, false, BytesList::from_bytes(Bytes::from_static(data)))
            .unwrap();
    }
    CachedBackend::new_cache(be, new_cache())
}

#[test]
fn a_miss_reads_the_full_file_and_stores_it() {
    let be = cached_backend(b"0123456789");
    let read = be.read_partial(FileType::Pack, &FILE, true, 2, 3, Cached::Miss);
    assert_eq!(read.result.unwrap(), Bytes::from_static(b"234"));
    assert_eq!(read.store, Some(Bytes::from_static(b"0123456789")));
    let read = be.read_full(FileType::Index, &FILE, Cached::Failed);
    assert_eq!(read.result.unwrap(), Bytes::from_static(b"0123456789"));
    assert_eq!(read.store, Some(Bytes::from_static(b"0123456789")));
}

#[test]
fn a_hit_does_not_reach_the_backend() {
    let be = cached_backend(b"0123456789");
    let hit = Cached::Hit(Bytes::from_static(b"cached"));
    let read = be.read_partial(FileType::Index, &FILE, false, 2, 6, hit);
    assert_eq!(read.result.unwrap(), Bytes::from_static(b"cached"));
    assert_eq!(read.store, None);
    let hit = Cached::Hit(Bytes::from_static(b"cached"));
    let read = be.read_full(FileType::Index, &FILE, hit);
    assert_eq!(read.result.unwrap(), Bytes::from_static(b"cached"));
}

#[test]
fn a_file_that_is_not_for_the_cache_comes_from_the_backend() {
    let be = cached_backend(b"0123456789");
    let hit = Cached::Hit(Bytes::from_static(b"cached"));
    let read = be.read_full(FileType::Pack, &FILE, hit);
    assert_eq!(read.result.unwrap(), Bytes::from_static(b"0123456789"));
    assert_eq!(read.store, None);
    let read = be.read_partial(FileType::Pack, &FILE, false, 8, 2, Cached::Miss);
    assert_eq!(read.result.unwrap(), Bytes::from_static(b"89"));
    assert_eq!(read.store, None);
}

#[test]
fn a_short_file_fails_and_does_not_go_into_the_cache() {
    let be = cached_backend(b"0");
    let read = be.read_partial(FileType::Pack, &FILE, true, 1, 5, Cached::Miss);
    let err = read.result.unwrap_err();
    assert_eq!(
        err.to_string(),
        format!(
            "The `Pack` file `{}` has `1` bytes. The read needs `5` bytes at the offset `1`.",
            FILE.to_hex()
        )
    );
    assert_eq!(err.kind(), ErrorKind::Backend);
    assert_eq!(read.store, None);
    let read = be.read_partial(FileType::Pack, &FILE, true, u32::MAX, u32::MAX, Cached::Miss);
    assert!(matches!(read.result, Err(RusticError::ShortFile { .. })));
}

#[test]
fn the_backend_behind_a_cache_gets_the_other_calls() {
    let mut be = cached_backend(b"0");
    assert_eq!(be.location(), "test");
    assert!(!be.needs_warm_up());
    assert!(be.warm_up(FileType::Pack, &FILE).is_ok());
    assert_eq!(be.warmup_path(FileType::Config, &FILE), "config");
    assert!(be.create().is_ok());
    let (list, clean) = be.list_with_size(FileType::Index);
    assert_eq!(list.unwrap(), vec![(FILE, 1)]);
    assert!(clean);
    let (_, clean) = be.list_with_size(FileType::Pack);
    assert!(!clean);
    let removed = be.remove(FileType::Pack, &FILE, true, |_, _, _| Ok(()));
    assert!(removed.result.is_ok());
    assert!(be.be.read_full(FileType::Pack, &FILE).is_err());
    let content = BytesList::from_bytes(Bytes::from_static(b"new"));
    let written = be.write_bytes(FileType::Pack, &FILE, true, content, |_, _, _, _| Ok(()));
    assert!(written.result.is_ok());
    assert_eq!(be.be.read_full(FileType::Pack, &FILE).unwrap(), Bytes::from_static(b"new"));
    let missing = be.read_full(FileType::Index, &Id { hi: 9, lo: 9 }, Cached::Miss);
    assert!(missing.result.is_err());
    assert_eq!(missing.store, None);
}

#[test]
fn a_write_and_a_removal_reach_the_cache_before_the_backend() {
    let refuse = || RusticError::IdMissing { id: FILE };
    for (tpe, cacheable, caches) in [
        (FileType::Pack, false, false),
        (FileType::Pack, true, true),
        (FileType::Index, false, true),
    ] {
        for ok in [true, false] {
            let mut be = cached_backend(b"0");
            let mut discarded = Vec::new();
            let removed = be.remove(tpe, &FILE, cacheable, |cache, tpe, id| {
                discarded.push(cache.path(tpe, id));
                if ok { Ok(()) } else { Err(refuse()) }
            });
            assert!(removed.result.is_ok());
            assert!(be.be.read_full(tpe, &FILE).is_err());
            assert_eq!(removed.cached.map(|cached| cached.is_ok()), caches.then_some(ok));
            let expected = if caches { vec![be.cache.path(tpe, &FILE)] } else { vec![] };
            assert_eq!(discarded, expected);

            let mut stored = Vec::new();
            let content = BytesList::from_bytes(Bytes::from_static(b"new"));
            let written = be.write_bytes(tpe, &FILE, cacheable, content, |_, _, id, content| {
                stored.push((*id, content.collect()));
                if ok { Ok(()) } else { Err(refuse()) }
            });
            assert!(written.result.is_ok());
            let new = Bytes::from_static(b"new");
            assert_eq!(be.be.read_full(tpe, &FILE).unwrap(), new);
            assert_eq!(written.cached.map(|cached| cached.is_ok()), caches.then_some(ok));
            assert_eq!(stored, if caches { vec![(FILE, new)] } else { vec![] });
        }
    }
}

#[test]
fn snapshots_indexes_and_trees_go_into_the_cache() {
    type Backend = CachedBackend<InMemoryBackend>;
    assert!(Backend::uses_cache(FileType::Snapshot, false));
    assert!(Backend::uses_cache(FileType::Index, false));
    assert!(!Backend::uses_cache(FileType::Pack, false));
    assert!(Backend::uses_cache(FileType::Pack, true));
    assert!(!Backend::uses_cache(FileType::Config, false));
    assert!(!Backend::uses_cache(FileType::Key, false));
    assert!(BlobType::Tree.is_cacheable());
    assert!(!BlobType::Data.is_cacheable());
}

#[test]
fn a_copy_of_a_cached_backend_reads_the_same() {
    let be = cached_backend(b"0");
    let copy = be.clone();
    assert_eq!(copy.cache.location(), be.cache.location());
    for tpe in [FileType::Pack, FileType::Index] {
        let read = copy.read_full(tpe, &FILE, Cached::Miss);
        assert_eq!(read.result.unwrap(), Bytes::from_static(b"0"));
    }
}
