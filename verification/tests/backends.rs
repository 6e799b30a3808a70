//! The backend in memory and the backend that injects faults.

use std::sync::{Arc, Mutex};

use bytes::Bytes;
use rustic_faults::backend::{ReadBackend, WriteBackend};
use rustic_faults::buffer::BytesList;
use rustic_faults::error::{BackendCall, BackendOp, ErrorKind, RusticError, RusticResult};
use rustic_faults::fault::{corrupt, truncate, Fault, FaultInjectionBackend, INJECTED_FAULT};
use rustic_faults::file_type::FileType;
use rustic_faults::fixtures::{expect_error, fault_injection_backend, shorten_files};
use rustic_faults::id::Id;
use rustic_faults::in_memory::InMemoryBackend;

type Rule = Box<dyn Fn(&BackendCall) -> Option<Fault>>;

fn id(n: u128) -> Id {
    Id { hi: n << 120, lo: n }
}

fn list_of(data: &'static [u8]) -> BytesList {
    BytesList::from_bytes(Bytes::from_static(data))
}

/// Creates a backend with one pack file that holds `data`.
fn backend_with_pack(data: &'static [u8]) -> (FaultInjectionBackend<InMemoryBackend, Rule>, Id) {
    let mut backend = FaultInjectionBackend::new(InMemoryBackend::new());
    let id = id(7);
    backend.write_bytes(FileType::Pack, &id, false, list_of(data)).unwrap();
    (backend, id)
}

/// Tells if `result` is an error that the backend injected.
fn is_injected<T>(result: RusticResult<T>) -> bool {
    result.is_err_and(|err| err.to_string().contains(INJECTED_FAULT))
}

#[test]
fn calls_without_a_rule_reach_the_inner_backend() {
    let (mut backend, id) = backend_with_pack(b"pack data");
    assert_eq!(backend.list(FileType::Pack).unwrap(), vec![id]);
    assert_eq!(backend.list_with_size(FileType::Pack).unwrap(), vec![(id, 9)]);
    assert_eq!(
        backend.read_full(FileType::Pack, &id).unwrap(),
        Bytes::from_static(b"pack data")
    );
    assert_eq!(
        backend.read_partial(FileType::Pack, &id, false, 5, 4).unwrap(),
        Bytes::from_static(b"data")
    );
    backend.remove(FileType::Pack, &id, false).unwrap();
    assert!(backend.list(FileType::Pack).unwrap().is_empty());
}

#[test]
fn error_fails_each_operation_and_changes_nothing() {
    let (mut backend, file) = backend_with_pack(b"pack data");
    backend.inject(Box::new(|_| Some(Fault::Error)));
    assert!(is_injected(backend.list(FileType::Pack)));
    assert!(is_injected(backend.list_with_size(FileType::Pack)));
    assert!(is_injected(backend.read_full(FileType::Pack, &file)));
    assert!(is_injected(backend.read_partial(FileType::Pack, &file, false, 0, 4)));
    assert!(is_injected(backend.write_bytes(
        FileType::Pack,
        &id(8),
        false,
        list_of(b"other")
    )));
    assert!(is_injected(backend.remove(FileType::Pack, &file, false)));

    backend.clear();
    assert_eq!(backend.list(FileType::Pack).unwrap(), vec![file]);
}

#[test]
fn corrupt_inverts_the_last_byte_of_a_read() {
    let (mut backend, id) = backend_with_pack(b"pack data");
    backend.inject(Box::new(|_| Some(Fault::Corrupt)));
    assert_eq!(
        backend.read_full(FileType::Pack, &id).unwrap(),
        Bytes::from_static(b"pack dat\x9e")
    );
    assert_eq!(
        backend.read_partial(FileType::Pack, &id, false, 0, 4).unwrap(),
        Bytes::from_static(b"pac\x94")
    );

    backend.clear();
    assert_eq!(
        backend.read_full(FileType::Pack, &id).unwrap(),
        Bytes::from_static(b"pack data")
    );
}

#[test]
fn corrupt_fails_a_read_of_no_data() {
    let (mut backend, id) = backend_with_pack(b"");
    backend.inject(Box::new(|_| Some(Fault::Corrupt)));
    assert!(is_injected(backend.read_full(FileType::Pack, &id)));
    assert!(is_injected(backend.read_partial(FileType::Pack, &id, false, 0, 0)));
}

#[test]
fn corrupt_fails_listings_writes_and_removals() {
    let (mut backend, file) = backend_with_pack(b"pack data");
    backend.inject(Box::new(|_| Some(Fault::Corrupt)));
    assert!(is_injected(backend.list(FileType::Pack)));
    assert!(is_injected(backend.list_with_size(FileType::Pack)));
    assert!(is_injected(backend.write_bytes(
        FileType::Pack,
        &id(8),
        false,
        list_of(b"other")
    )));
    assert!(is_injected(backend.remove(FileType::Pack, &file, false)));

    backend.clear();
    assert_eq!(backend.list(FileType::Pack).unwrap(), vec![file]);
}

#[test]
fn rule_gets_each_call() {
    let (mut backend, id) = backend_with_pack(b"pack data");
    let calls = Arc::new(Mutex::new(Vec::new()));
    let seen = Arc::clone(&calls);
    backend.inject(Box::new(move |call| {
        seen.lock().unwrap().push(*call);
        None
    }));

    _ = backend.list(FileType::Index).unwrap();
    _ = backend.read_full(FileType::Pack, &id).unwrap();
    _ = backend.read_partial(FileType::Pack, &id, false, 0, 4).unwrap();
    backend.remove(FileType::Pack, &id, false).unwrap();

    let call = |op, tpe, id| BackendCall { op, tpe, id };
    assert_eq!(
        *calls.lock().unwrap(),
        vec![
            call(BackendOp::List, FileType::Index, None),
            call(BackendOp::ReadFull, FileType::Pack, Some(id)),
            call(BackendOp::ReadPartial, FileType::Pack, Some(id)),
            call(BackendOp::Remove, FileType::Pack, Some(id)),
        ]
    );
}

#[test]
fn truncate_drops_the_last_byte_of_a_read() {
    let (mut backend, id) = backend_with_pack(b"pack data");
    backend.inject(Box::new(|_| Some(Fault::Truncate)));
    assert_eq!(
        backend.read_full(FileType::Pack, &id).unwrap(),
        Bytes::from_static(b"pack dat")
    );
    assert_eq!(
        backend.read_partial(FileType::Pack, &id, false, 0, 4).unwrap(),
        Bytes::from_static(b"pac")
    );
    assert!(is_injected(backend.list(FileType::Pack)));
    assert!(is_injected(backend.remove(FileType::Pack, &id, false)));
}

#[test]
fn truncate_fails_a_read_of_no_data() {
    let (mut backend, id) = backend_with_pack(b"");
    backend.inject(Box::new(|_| Some(Fault::Truncate)));
    assert!(is_injected(backend.read_full(FileType::Pack, &id)));
}

#[test]
fn changed_data_of_a_corrupt_and_a_truncated_read() {
    assert_eq!(corrupt(Bytes::from_static(b"ab")), Some(Bytes::from_static(b"a\x9d")));
    assert_eq!(corrupt(Bytes::new()), None);
    assert_eq!(truncate(Bytes::from_static(b"ab")), Some(Bytes::from_static(b"a")));
    assert_eq!(truncate(Bytes::new()), None);
    let twice = corrupt(corrupt(Bytes::from_static(b"xyz")).unwrap()).unwrap();
    assert_eq!(twice, Bytes::from_static(b"xyz"));
}

#[test]
fn injected_error_names_the_call() {
    let (mut backend, file) = backend_with_pack(b"x");
    backend.inject(Box::new(|_| Some(Fault::Error)));
    let err = backend.read_full(FileType::Pack, &file).unwrap_err();
    assert_eq!(err.kind(), ErrorKind::Backend);
    assert_eq!(
        err.to_string(),
        format!(
            "Injected fault in the call `ReadFull` for the file type `Pack` and the ID `{}`.",
            file.to_hex()
        )
    );
    let err = backend.list(FileType::Snapshot).unwrap_err();
    assert_eq!(
        err.to_string(),
        "Injected fault in the call `List` for the file type `Snapshot` and the ID `none`."
    );
}

#[test]
fn a_write_of_an_existing_file_replaces_it_and_fails() {
    let mut backend = InMemoryBackend::new();
    let (a, b) = (id(1), id(2));
    backend.write_bytes(FileType::Index, &b, true, list_of(b"two")).unwrap();
    backend.write_bytes(FileType::Index, &a, true, list_of(b"one")).unwrap();
    let err = backend.write_bytes(FileType::Index, &a, true, list_of(b"other")).unwrap_err();
    assert_eq!(err.to_string(), format!("ID `{}` already exists.", a.to_hex()));
    assert_eq!(backend.read_full(FileType::Index, &a).unwrap(), Bytes::from_static(b"other"));
    assert_eq!(backend.read_full(FileType::Index, &b).unwrap(), Bytes::from_static(b"two"));
    assert_eq!(backend.list_with_size(FileType::Index).unwrap(), vec![(a, 5), (b, 3)]);
    assert!(backend.list(FileType::Pack).unwrap().is_empty());
}

#[test]
fn a_missing_file_cannot_be_read_or_removed() {
    let mut backend = InMemoryBackend::default();
    let a = id(1);
    let err = backend.read_full(FileType::Key, &a).unwrap_err();
    assert_eq!(
        err.to_string(),
        format!("Element tpe: Key, id: {} does not exist in backend", a.to_hex())
    );
    let err = backend.remove(FileType::Key, &a, false).unwrap_err();
    assert_eq!(err.to_string(), format!("ID `{}` does not exist.", a.to_hex()));
}

#[test]
fn a_cold_backend_gives_a_file_after_its_warm_up() {
    let mut backend = InMemoryBackend::new_cold();
    let a = id(1);
    backend.write_bytes(FileType::Pack, &a, false, list_of(b"cold data")).unwrap();
    assert!(backend.needs_warm_up());
    let err = backend.read_full(FileType::Pack, &a).unwrap_err();
    assert_eq!(err.to_string(), format!("tpe Pack id `{}` is not warmed-up", a.to_hex()));
    assert!(backend.read_partial(FileType::Pack, &a, false, 0, 1).is_err());
    backend.warm_up(FileType::Pack, &a).unwrap();
    assert_eq!(backend.read_full(FileType::Pack, &a).unwrap(), Bytes::from_static(b"cold data"));
    assert_eq!(
        backend.read_partial(FileType::Pack, &a, false, 5, 4).unwrap(),
        Bytes::from_static(b"data")
    );
}

#[test]
fn a_warm_up_of_a_warm_backend_changes_nothing() {
    let mut backend = InMemoryBackend::new();
    assert!(!backend.needs_warm_up());
    assert!(backend.warm_up(FileType::Pack, &id(1)).is_ok());
    assert!(backend.create().is_ok());
    assert_eq!(backend.location(), "test");
}

#[test]
fn warm_up_paths_name_the_file() {
    let backend = InMemoryBackend::new();
    let a = Id { hi: 0xab << 120, lo: 1 };
    let hex = a.to_hex();
    assert_eq!(backend.warmup_path(FileType::Config, &a), "config");
    assert_eq!(backend.warmup_path(FileType::Pack, &a), format!("data/ab/{hex}"));
    assert_eq!(backend.warmup_path(FileType::Snapshot, &a), format!("snapshots/{hex}"));
    assert_eq!(backend.warmup_path(FileType::Key, &a), format!("keys/{hex}"));
}

#[test]
fn a_clone_keeps_its_own_files() {
    let mut backend = InMemoryBackend::new();
    backend.write_bytes(FileType::Pack, &id(1), false, list_of(b"a")).unwrap();
    let mut copy = backend.clone();
    copy.write_bytes(FileType::Pack, &id(2), false, list_of(b"b")).unwrap();
    backend.remove(FileType::Pack, &id(1), false).unwrap();
    assert!(backend.list(FileType::Pack).unwrap().is_empty());
    assert_eq!(copy.list(FileType::Pack).unwrap(), vec![id(1), id(2)]);
}

#[test]
fn a_write_joins_the_chunks_of_its_content() {
    let mut backend = InMemoryBackend::new();
    let chunks = vec![Bytes::from_static(b"ab"), Bytes::new(), Bytes::from_static(b"cd")];
    let content = BytesList::new(chunks);
    assert_eq!(content.slice().len(), 3);
    assert_eq!(content.collect(), Bytes::from_static(b"abcd"));
    backend.write_bytes(FileType::Pack, &id(1), false, content).unwrap();
    assert_eq!(backend.read_full(FileType::Pack, &id(1)).unwrap(), Bytes::from_static(b"abcd"));
}

#[test]
fn shorten_files_keeps_the_first_bytes_of_each_file() {
    let mut backend: FaultInjectionBackend<InMemoryBackend, Rule> = fault_injection_backend();
    backend.write_bytes(FileType::Pack, &id(1), false, list_of(b"long data")).unwrap();
    backend.write_bytes(FileType::Pack, &id(2), false, list_of(b"x")).unwrap();
    backend.write_bytes(FileType::Index, &id(3), false, list_of(b"index")).unwrap();
    shorten_files(&mut backend, FileType::Pack, 4).unwrap();
    assert_eq!(backend.read_full(FileType::Pack, &id(1)).unwrap(), Bytes::from_static(b"long"));
    assert_eq!(backend.read_full(FileType::Pack, &id(2)).unwrap(), Bytes::from_static(b"x"));
    assert_eq!(backend.read_full(FileType::Index, &id(3)).unwrap(), Bytes::from_static(b"index"));
}

#[test]
fn shorten_files_with_a_rule_that_decides_no_fault_shortens() {
    let (mut backend, file) = backend_with_pack(b"long data");
    backend.inject(Box::new(|_| None));
    assert!(shorten_files(&mut backend, FileType::Pack, 4).is_ok());
    assert_eq!(
        backend.read_full(FileType::Pack, &file).unwrap(),
        Bytes::from_static(b"long")
    );
}

#[test]
fn shorten_files_with_a_changed_read_shortens_what_it_reads() {
    let (mut backend, file) = backend_with_pack(b"long data");
    backend.inject(Box::new(|call| {
        (call.op == BackendOp::ReadFull).then_some(Fault::Truncate)
    }));
    assert!(shorten_files(&mut backend, FileType::Pack, 100).is_ok());
    backend.clear();
    assert_eq!(
        backend.read_full(FileType::Pack, &file).unwrap(),
        Bytes::from_static(b"long dat")
    );
}

#[test]
fn shorten_files_fails_for_each_refused_call() {
    for op in [BackendOp::List, BackendOp::ReadFull, BackendOp::Remove, BackendOp::Write] {
        let (mut backend, file) = backend_with_pack(b"long data");
        backend.inject(Box::new(move |call| (call.op == op).then_some(Fault::Error)));
        assert!(is_injected(shorten_files(&mut backend, FileType::Pack, 4)));
        backend.clear();
        // Only a refused write leaves a file that is gone.
        let left = backend.read_full(FileType::Pack, &file);
        assert_eq!(left.is_ok(), op != BackendOp::Write);
    }
}

#[test]
fn shorten_files_fails_for_a_file_that_is_not_warmed_up() {
    let mut inner = InMemoryBackend::new_cold();
    inner.write_bytes(FileType::Pack, &id(1), false, list_of(b"long data")).unwrap();
    let mut backend: FaultInjectionBackend<InMemoryBackend, Rule> =
        FaultInjectionBackend::new(inner);
    let result = shorten_files(&mut backend, FileType::Pack, 4);
    assert!(matches!(result, Err(RusticError::NotWarmedUp { .. })));
}

#[test]
fn a_check_tells_which_calls_are_refused() {
    let (mut backend, file) = backend_with_pack(b"pack data");
    let call = |op| BackendCall { op, tpe: FileType::Pack, id: Some(file) };
    assert!(backend.check(&call(BackendOp::Write)).is_ok());
    for (fault, refuses_read) in [(Fault::Error, true), (Fault::Truncate, false)] {
        backend.inject(Box::new(move |_| Some(fault)));
        assert!(is_injected(backend.check(&call(BackendOp::Write))));
        assert_eq!(is_injected(backend.check_read(&call(BackendOp::ReadPartial))), refuses_read);
    }
}

#[test]
fn shorten_files_gives_an_injected_error() {
    let mut backend: FaultInjectionBackend<InMemoryBackend, Rule> = fault_injection_backend();
    backend.write_bytes(FileType::Pack, &id(1), false, list_of(b"long data")).unwrap();
    backend.inject(Box::new(|call| {
        (call.op == BackendOp::Remove).then_some(Fault::Error)
    }));
    let result = shorten_files(&mut backend, FileType::Pack, 4);
    assert_eq!(expect_error(result, INJECTED_FAULT), Ok(()));
}

#[test]
fn expect_error_tells_what_it_found() {
    let ok: RusticResult<()> = Ok(());
    assert_eq!(
        expect_error(ok, "text"),
        Err("The operation succeeded, but an error that contains `text` was expected.".to_string())
    );
    let err: RusticResult<()> = Err(RusticError::IdExists { id: id(1) });
    assert_eq!(
        expect_error(err, "other text"),
        Err(format!(
            "The error does not contain `other text`:\nID `{}` already exists.",
            id(1).to_hex()
        ))
    );
    let err: RusticResult<()> = Err(RusticError::IdExists { id: id(1) });
    assert_eq!(expect_error(err, "already"), Ok(()));
}

#[test]
fn fits_read_tells_the_ranges_of_a_file() {
    let (backend, file) = backend_with_pack(b"pack data");
    let files = &backend.inner;
    assert!(files.fits_listing(FileType::Pack));
    assert!(files.fits_listing(FileType::Key));
    assert!(files.fits_read(FileType::Pack, &file, 0, 9));
    assert!(files.fits_read(FileType::Pack, &file, 9, 0));
    assert!(!files.fits_read(FileType::Pack, &file, 1, 9));
    assert!(!files.fits_read(FileType::Pack, &file, u32::MAX, 1));
    assert!(!files.fits_read(FileType::Key, &file, 0, 0));
    // A read of a file that is not warmed up gives an error, whatever its range is.
    assert!(InMemoryBackend::new_cold().fits_read(FileType::Pack, &file, 1, 1));
}
