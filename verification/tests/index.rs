//! The index of a repository.

use bytes::Bytes;
use rustic_faults::error::{ErrorKind, RusticError, RusticResult};
use rustic_faults::file_type::{BlobType, FileType};
use rustic_faults::id::{BlobId, DataId, Id, PackId, TreeId};
use rustic_faults::index::{
    BlobLocation, GlobalIndex, Index, IndexBlob, IndexCollector, IndexEntry,
    IndexFile, IndexPack, IndexType, IntoIndex, ReadGlobalIndex, ReadIndex, INDEX_TRY_WAIT,
    MAX_INDEX_TRIES,
};

/// Creates a global index that holds no blob.
fn empty_index() -> GlobalIndex {
    GlobalIndex::new_from_index(IndexCollector::new(IndexType::Full).into_index())
}

/// Converts a global index into an index, without the time of the waits.
fn into_index(index: GlobalIndex) -> RusticResult<Index> {
    let (mut index, mut waits) = (index, 0);
    loop {
        match index.into_index(waits) {
            IntoIndex::Ready(index) => return Ok(index),
            IntoIndex::Failed(err) => return Err(err),
            IntoIndex::Wait { index: other, waits: more } => (index, waits) = (other, more),
        }
    }
}

#[test]
fn into_index_gives_the_index_of_a_single_user() {
    assert!(into_index(empty_index()).is_ok());
}

#[test]
fn into_index_fails_while_another_user_holds_the_index() {
    let index = empty_index();
    let other_user = index.clone();

    let err = into_index(index).unwrap_err();

    assert!(err.to_string().contains("still in use"), "unexpected error: {}", err.to_string());
    assert!(
        err.to_string().contains(&MAX_INDEX_TRIES.to_string()),
        "the error does not name the number of tries: {}",
        err.to_string()
    );
    drop(other_user);
}

#[test]
fn into_index_waits_for_another_user() {
    let index = empty_index();
    let mut other_user = Some(index.clone());
    let (mut index, mut waits) = (index, 0);
    loop {
        match index.into_index(waits) {
            IntoIndex::Ready(_) => break,
            IntoIndex::Failed(err) => panic!("{}", err.to_string()),
            IntoIndex::Wait { index: other, waits: more } => (index, waits) = (other, more),
        }
        if waits == 3 {
            drop(other_user.take());
        }
    }
    assert_eq!(waits, 3);
}

#[test]
fn the_last_try_has_the_exact_message() {
    let index = empty_index();
    let other_user = index.clone();
    match index.into_index(MAX_INDEX_TRIES) {
        IntoIndex::Failed(err) => {
            assert_eq!(err.kind(), ErrorKind::Internal);
            assert_eq!(
                err.to_string(),
                "The index is still in use after `10` tries in `100` milliseconds each. Please try again."
            );
        }
        other => panic!("{other:?}"),
    }
    assert_eq!(INDEX_TRY_WAIT, 100);
    drop(other_user);
}

fn blob(n: u128, tpe: BlobType, offset: u32) -> IndexBlob {
    let location = BlobLocation { offset, length: 100, uncompressed_length: None };
    IndexBlob { id: BlobId(Id { hi: n, lo: 0 }), tpe, location }
}

fn pack(n: u128, blobs: Vec<IndexBlob>) -> IndexPack {
    IndexPack { id: PackId(Id { hi: 0, lo: n }), blobs }
}

fn packs() -> Vec<IndexPack> {
    vec![
        pack(1, vec![blob(1, BlobType::Tree, 0), blob(2, BlobType::Tree, 100)]),
        pack(2, vec![blob(3, BlobType::Data, 0)]),
        pack(3, vec![blob(3, BlobType::Data, 7), blob(4, BlobType::Data, 107)]),
    ]
}

fn index_of(tpe: IndexType) -> Index {
    let mut collector = IndexCollector::new(tpe);
    collector.extend(&packs());
    collector.into_index()
}

fn id(n: u128) -> BlobId {
    BlobId(Id { hi: n, lo: 0 })
}

#[test]
fn a_full_index_has_an_entry_for_each_blob() {
    let index = index_of(IndexType::Full);
    let entry = index.get_id(BlobType::Tree, &id(2)).unwrap();
    assert_eq!(entry.pack, PackId(Id { hi: 0, lo: 1 }));
    assert_eq!(entry.location.offset, 100);
    assert_eq!(entry.data_length(), 68);
    // A later pack replaces the place of a blob.
    assert_eq!(index.get_data(&DataId(id(3).0)).unwrap().pack, PackId(Id { hi: 0, lo: 3 }));
    assert!(index.get_id(BlobType::Data, &id(1)).is_none());
    assert!(index.has_tree(&TreeId(id(1).0)));
    assert!(!index.has_data(&DataId(id(1).0)));
    assert_eq!(index.total_size(BlobType::Tree), 200);
    assert_eq!(index.total_size(BlobType::Data), 300);
}

#[test]
fn an_index_of_full_trees_knows_only_the_ids_of_data() {
    let index = index_of(IndexType::DataIds);
    assert!(index.get_tree(&TreeId(id(1).0)).is_some());
    assert!(index.get_data(&DataId(id(4).0)).is_none());
    assert!(index.has_data(&DataId(id(4).0)));
    assert!(!index.has_data(&DataId(id(9).0)));
    assert_eq!(index.total_size(BlobType::Data), 300);
}

#[test]
fn an_index_of_trees_knows_no_data() {
    let index = index_of(IndexType::OnlyTrees);
    assert!(index.has_tree(&TreeId(id(2).0)));
    assert!(!index.has(BlobType::Data, &id(4)));
    assert_eq!(index.total_size(BlobType::Data), 300);
}

#[test]
fn a_blob_counts_for_its_own_type() {
    let mut collector = IndexCollector::new(IndexType::Full);
    let mixed = vec![blob(1, BlobType::Tree, 0), blob(2, BlobType::Data, 100)];
    collector.extend(&vec![pack(1, Vec::new()), pack(2, mixed)]);
    let index = collector.into_index();
    assert_eq!(index.total_size(BlobType::Tree), 100);
    assert_eq!(index.total_size(BlobType::Data), 100);
    assert!(index.has_tree(&TreeId(id(1).0)));
    assert!(index.get_data(&DataId(id(2).0)).is_some());
    assert!(!index.has_tree(&TreeId(id(2).0)));
}

#[test]
fn an_index_can_drop_its_data() {
    let index = GlobalIndex::drop_data(index_of(IndexType::Full));
    assert!(index.has_tree(&TreeId(id(1).0)));
    assert!(!index.has_data(&DataId(id(3).0)));
    assert_eq!(index.total_size(BlobType::Data), 0);
    assert_eq!(index.total_size(BlobType::Tree), 200);
}

#[test]
fn the_length_of_data_leaves_out_the_encryption() {
    let location = BlobLocation { offset: 0, length: 40, uncompressed_length: None };
    assert_eq!(location.data_length(), 8);
    let compressed = BlobLocation { uncompressed_length: Some(1_000), ..location };
    assert_eq!(compressed.data_length(), 1_000);
    let entry = IndexEntry::new(BlobType::Data, PackId(Id { hi: 1, lo: 1 }), compressed);
    assert_eq!(entry.data_length(), 1_000);
    let index_blob = blob(5, BlobType::Tree, 3);
    let entry = IndexEntry::from_index_blob(&index_blob, PackId(Id { hi: 1, lo: 1 }));
    assert_eq!(entry.blob_type, BlobType::Tree);
    assert_eq!(entry.location, index_blob.location);
}

/// Gives the place of a blob as its data.
fn read_place(
    tpe: FileType,
    id: Id,
    cacheable: bool,
    location: BlobLocation,
) -> RusticResult<Bytes> {
    let text = format!("{tpe:?} {} {cacheable} {}", id.lo, location.offset);
    Ok(Bytes::from(text.into_bytes()))
}

/// Gives the index files, with an error in place of the file `bad`.
fn index_files(bad: usize) -> Vec<RusticResult<IndexFile>> {
    packs()
        .into_iter()
        .enumerate()
        .map(|(n, pack)| {
            if n == bad {
                Err(RusticError::IdMissing { id: pack.id.0 })
            } else {
                Ok(IndexFile { packs: vec![pack] })
            }
        })
        .collect()
}

#[test]
fn a_blob_comes_from_its_place() {
    let index = index_of(IndexType::Full);
    let tree = index.blob_from_backend(read_place, BlobType::Tree, &id(2)).unwrap();
    assert_eq!(tree, Bytes::from_static(b"Pack 1 true 100"));
    let data = index.blob_from_backend(read_place, BlobType::Data, &id(4)).unwrap();
    assert_eq!(data, Bytes::from_static(b"Pack 3 false 107"));
    let err = index.blob_from_backend(read_place, BlobType::Tree, &id(4)).unwrap_err();
    assert_eq!(err.kind(), ErrorKind::Internal);
    assert_eq!(
        err.to_string(),
        format!("Blob `{}` with type `Tree` not found in index", id(4).0.to_hex())
    );
    let entry = index.get_id(BlobType::Tree, &id(1)).unwrap();
    let err = entry.read_data(|_, _, _, _| Err(RusticError::TreeStackEmpty)).unwrap_err();
    assert!(matches!(err, RusticError::TreeStackEmpty));
}

fn is_global<I: ReadGlobalIndex>(_: &I) -> bool {
    true
}

#[test]
fn a_global_index_reads_all_files_or_gives_the_first_error() {
    let index = GlobalIndex::new(Ok(index_files(9))).unwrap();
    assert!(is_global(&index));
    assert!(index.get_data(&DataId(id(4).0)).is_some());
    assert_eq!(index.total_size(BlobType::Data), 300);
    let index = GlobalIndex::only_full_trees(Ok(index_files(9))).unwrap();
    assert!(index.get_data(&DataId(id(4).0)).is_none());
    assert!(index.has_data(&DataId(id(4).0)));
    let err = GlobalIndex::new(Ok(index_files(1))).unwrap_err();
    assert!(matches!(err, RusticError::IdMissing { id } if id.lo == 2));
    let err = GlobalIndex::new(Err(RusticError::TreeStackEmpty)).unwrap_err();
    assert!(matches!(err, RusticError::TreeStackEmpty));
}
