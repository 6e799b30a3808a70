//! The index of a repository: which pack holds which blob.

use std::sync::Arc;

use bytes::Bytes;
use vstd::prelude::*;

use crate::error::{RusticError, RusticResult};
use crate::file_type::{BlobType, FileType};
use crate::id::{BlobId, DataId, Id, PackId, TreeId};
use crate::sorted::SortedMap;

verus! {

/// The number of times that the conversion of a global index into an index waits.
pub const MAX_INDEX_TRIES: u64 = 10;

/// The time in milliseconds that the conversion of a global index into an index waits between two
/// tries.
pub const INDEX_TRY_WAIT: u64 = 100;

/// The number of bytes that the encryption adds to a blob.
pub const CRYPTO_OVERHEAD: u32 = 32;

/// The location of a blob in a pack.
#[derive(Debug, Clone, Copy, PartialEq, Eq, Structural)]
pub struct BlobLocation {
    /// The position of the blob.
    pub offset: u32,
    /// The length of the blob in the pack.
    pub length: u32,
    /// The length of the data, if the blob is compressed.
    pub uncompressed_length: Option<u32>,
}

impl BlobLocation {
    /// The length of the data of the blob.
    pub open spec fn data_len(self) -> int {
        match self.uncompressed_length {
            Some(length) => length as int,
            None => self.length - CRYPTO_OVERHEAD,
        }
    }

    /// Gives the length of the data of the blob.
    pub fn data_length(&self) -> (r: u32)
        requires
            self.data_len() >= 0,
        ensures
            r == self.data_len(),
    {
        match self.uncompressed_length {
            Some(length) => length,
            None => self.length - CRYPTO_OVERHEAD,
        }
    }
}

/// A blob of an index file.
#[derive(Debug, Clone, Copy, PartialEq, Eq, Structural)]
pub struct IndexBlob {
    /// The ID of the blob.
    pub id: BlobId,
    /// The type of the blob.
    pub tpe: BlobType,
    /// The location of the blob.
    pub location: BlobLocation,
}

/// A pack of an index file.
#[derive(Debug, Clone)]
pub struct IndexPack {
    /// The ID of the pack.
    pub id: PackId,
    /// The blobs of the pack.
    pub blobs: Vec<IndexBlob>,
}

/// An index file.
#[derive(Debug, Clone)]
pub struct IndexFile {
    /// The packs of the file.
    pub packs: Vec<IndexPack>,
}

/// The index files that a backend gives, or the error of their listing.
pub type IndexStream = RusticResult<Vec<RusticResult<IndexFile>>>;

/// An entry of the index.
#[derive(Debug, Clone, Copy, PartialEq, Eq, Structural)]
pub struct IndexEntry {
    /// The type of the blob.
    pub blob_type: BlobType,
    /// The pack that holds the blob.
    pub pack: PackId,
    /// The location of the blob in the pack.
    pub location: BlobLocation,
}

impl IndexEntry {
    /// Creates an entry.
    pub fn new(blob_type: BlobType, pack: PackId, location: BlobLocation) -> (r: Self)
        ensures
            r == (IndexEntry { blob_type, pack, location }),
    {
        IndexEntry { blob_type, pack, location }
    }

    /// Creates the entry of the blob `blob` in the pack `pack`.
    pub fn from_index_blob(blob: &IndexBlob, pack: PackId) -> (r: Self)
        ensures
            r == (IndexEntry { blob_type: blob.tpe, pack, location: blob.location }),
    {
        IndexEntry { blob_type: blob.tpe, pack, location: blob.location }
    }

    /// The arguments of the read of the blob: the file, whether the read goes through a cache, and
    /// the location. Packs with tree blobs go through a cache.
    pub open spec fn read_args(&self) -> (FileType, Id, bool, BlobLocation) {
        (FileType::Pack, self.pack.0, self.blob_type is Tree, self.location)
    }

    /// Whether `read` can read the blob.
    pub open spec fn can_read<F: FnOnce(FileType, Id, bool, BlobLocation) -> RusticResult<Bytes>>(
        &self,
        read: F,
    ) -> bool {
        call_requires(read, self.read_args())
    }

    /// Whether `read` can give `r` for the blob.
    pub open spec fn reads<F: FnOnce(FileType, Id, bool, BlobLocation) -> RusticResult<Bytes>>(
        &self,
        read: F,
        r: RusticResult<Bytes>,
    ) -> bool {
        call_ensures(read, self.read_args(), r)
    }

    /// Reads the blob with `read`, which reads and decrypts a part of a file.
    pub fn read_data<F: FnOnce(FileType, Id, bool, BlobLocation) -> RusticResult<Bytes>>(
        &self,
        read: F,
    ) -> (r: RusticResult<Bytes>)
        requires
            self.can_read(read),
        ensures
            self.reads(read, r),
            call_ensures(
                read,
                (FileType::Pack, self.pack.0, self.blob_type == BlobType::Tree, self.location),
                r,
            ),
    {
        read(FileType::Pack, self.pack.0, self.blob_type.is_cacheable(), self.location)
    }

    /// Gives the length of the data of the blob.
    pub fn data_length(&self) -> (r: u32)
        requires
            self.location.data_len() >= 0,
        ensures
            r == self.location.data_len(),
    {
        self.location.data_length()
    }
}

/// An index of blobs.
pub trait ReadIndex: Sized {
    /// The entry of the blob `id`.
    spec fn entry(&self, tpe: BlobType, id: Id) -> Option<IndexEntry>;

    /// The total size of all blobs of the type `tpe`.
    spec fn size(&self, tpe: BlobType) -> u64;

    /// Whether the index knows the blob `id`.
    spec fn knows(&self, tpe: BlobType, id: Id) -> bool;

    /// Gives the entry of the blob `id`.
    fn get_id(&self, tpe: BlobType, id: &BlobId) -> (r: Option<IndexEntry>)
        ensures
            r == self.entry(tpe, id.0),
    ;

    /// Gives the total size of all blobs of the type `tpe`.
    ///
    /// The size of a blob is its length in its pack. A blob counts for each pack that holds it.
    fn total_size(&self, tpe: BlobType) -> (r: u64)
        ensures
            r == self.size(tpe),
    ;

    /// Tells if the index knows the blob `id`.
    fn has(&self, tpe: BlobType, id: &BlobId) -> (r: bool)
        ensures
            r == self.knows(tpe, id.0),
    ;

    /// Gives the entry of the tree `id`.
    fn get_tree(&self, id: &TreeId) -> (r: Option<IndexEntry>)
        ensures
            r == self.entry(BlobType::Tree, id.0),
    {
        self.get_id(BlobType::Tree, &BlobId(id.0))
    }

    /// Gives the entry of the data blob `id`.
    fn get_data(&self, id: &DataId) -> (r: Option<IndexEntry>)
        ensures
            r == self.entry(BlobType::Data, id.0),
    {
        self.get_id(BlobType::Data, &BlobId(id.0))
    }

    /// Tells if the index knows the tree `id`.
    fn has_tree(&self, id: &TreeId) -> (r: bool)
        ensures
            r == self.knows(BlobType::Tree, id.0),
    {
        self.has(BlobType::Tree, &BlobId(id.0))
    }

    /// Tells if the index knows the data blob `id`.
    fn has_data(&self, id: &DataId) -> (r: bool)
        ensures
            r == self.knows(BlobType::Data, id.0),
    {
        self.has(BlobType::Data, &BlobId(id.0))
    }

    /// Reads the blob `id` with `read`, which reads and decrypts a part of a file.
    ///
    /// # Errors
    ///
    /// * If the index has no entry for the blob.
    /// * If the read fails.
    fn blob_from_backend<F: FnOnce(FileType, Id, bool, BlobLocation) -> RusticResult<Bytes>>(
        &self,
        read: F,
        tpe: BlobType,
        id: &BlobId,
    ) -> (r: RusticResult<Bytes>)
        requires
            self.entry(tpe, id.0) matches Some(entry) ==> entry.can_read(read),
        ensures
            match self.entry(tpe, id.0) {
                Some(entry) => entry.reads(read, r),
                None => r == Err::<Bytes, RusticError>(RusticError::BlobNotInIndex { id: *id, tpe }),
            },
            self.entry(tpe, id.0) matches Some(entry) ==> call_ensures(
                read,
                (FileType::Pack, entry.pack.0, entry.blob_type == BlobType::Tree, entry.location),
                r,
            ),
    {
        match self.get_id(tpe, id) {
            Some(entry) => entry.read_data(read),
            None => Err(RusticError::BlobNotInIndex { id: *id, tpe }),
        }
    }
}

/// An index that threads can share.
pub trait ReadGlobalIndex: ReadIndex + Clone + Sync + Send + 'static {

}

/// What an index keeps of the blobs.
#[derive(Debug, Clone, Copy, PartialEq, Eq, Structural)]
pub enum IndexType {
    /// The entries of all blobs.
    Full,
    /// The entries of the tree blobs, and only the IDs of the data blobs.
    DataIds,
    /// Only the entries of the tree blobs.
    OnlyTrees,
}

/// What an index keeps of the blobs of one type.
#[derive(Debug, Clone, Copy, PartialEq, Eq, Structural)]
pub enum Keeps {
    /// Nothing.
    Nothing,
    /// The IDs.
    Ids,
    /// The entries.
    Entries,
}

impl IndexType {
    /// What the index keeps of the blobs of the type `tpe`.
    pub open spec fn keeps(self, tpe: BlobType) -> Keeps {
        match (self, tpe) {
            (_, BlobType::Tree) => Keeps::Entries,
            (IndexType::Full, BlobType::Data) => Keeps::Entries,
            (IndexType::DataIds, BlobType::Data) => Keeps::Ids,
            (IndexType::OnlyTrees, BlobType::Data) => Keeps::Nothing,
        }
    }
}

/// The blobs of one type of an index.
pub ghost struct TypeState {
    /// What the index keeps of them.
    pub keeps: Keeps,
    /// The pack and the location of each blob with an entry.
    pub found: Map<Id, (PackId, BlobLocation)>,
    /// The blobs that the index knows.
    pub known: Set<Id>,
    /// The total size of the blobs.
    pub size: u64,
}

/// The blobs of an index.
pub ghost struct IndexState {
    /// The tree blobs.
    pub tree: TypeState,
    /// The data blobs.
    pub data: TypeState,
}

/// The size `size`, or the maximum of a size.
pub open spec fn capped(size: int) -> u64 {
    if size <= u64::MAX {
        size as u64
    } else {
        u64::MAX
    }
}

/// A blob that an index file lists, with the pack that holds it.
pub type ListedBlob = (PackId, IndexBlob);

/// The blobs of the pack `pack`.
pub open spec fn pack_blobs(pack: IndexPack) -> Seq<ListedBlob> {
    pack.blobs@.map_values(|blob: IndexBlob| (pack.id, blob))
}

/// The blobs of the packs `packs`, one pack after the other.
pub open spec fn packs_blobs(packs: Seq<IndexPack>) -> Seq<ListedBlob>
    decreases packs.len(),
{
    if packs.len() == 0 {
        Seq::empty()
    } else {
        packs_blobs(packs.drop_last()) + pack_blobs(packs.last())
    }
}

/// The blobs of the files of `files` that are no errors, one file after the other.
pub open spec fn files_blobs(files: Seq<RusticResult<IndexFile>>) -> Seq<ListedBlob>
    decreases files.len(),
{
    if files.len() == 0 {
        Seq::empty()
    } else {
        let before = files_blobs(files.drop_last());
        match files.last() {
            Ok(file) => before + packs_blobs(file.packs@),
            Err(_) => before,
        }
    }
}

/// The total length of the blobs of `blobs` with the type `tpe`.
pub open spec fn total_length(blobs: Seq<ListedBlob>, tpe: BlobType) -> nat
    decreases blobs.len(),
{
    if blobs.len() == 0 {
        0
    } else {
        total_length(blobs.drop_last(), tpe) + if blobs.last().1.tpe == tpe {
            blobs.last().1.location.length as nat
        } else {
            0
        }
    }
}

impl TypeState {
    /// The state without blobs.
    pub open spec fn empty(keeps: Keeps) -> TypeState {
        TypeState { keeps, found: Map::empty(), known: Set::empty(), size: 0 }
    }

    /// The state with the blob `blob` of the pack `pack`. The total size stays at its maximum.
    pub open spec fn with_blob(self, pack: PackId, blob: IndexBlob) -> TypeState {
        TypeState {
            keeps: self.keeps,
            found: if self.keeps is Entries {
                self.found.insert(blob.id.0, (pack, blob.location))
            } else {
                self.found
            },
            known: if self.keeps is Nothing {
                self.known
            } else {
                self.known.insert(blob.id.0)
            },
            size: capped(self.size + blob.location.length),
        }
    }
}

impl IndexState {
    /// The state without blobs.
    pub open spec fn empty(tpe: IndexType) -> IndexState {
        IndexState {
            tree: TypeState::empty(tpe.keeps(BlobType::Tree)),
            data: TypeState::empty(tpe.keeps(BlobType::Data)),
        }
    }

    /// The blobs of the type `tpe`.
    pub open spec fn of(self, tpe: BlobType) -> TypeState {
        match tpe {
            BlobType::Tree => self.tree,
            BlobType::Data => self.data,
        }
    }

    /// The state with the blob `blob` of the pack `pack`.
    pub open spec fn with_blob(self, pack: PackId, blob: IndexBlob) -> IndexState {
        match blob.tpe {
            BlobType::Tree => IndexState { tree: self.tree.with_blob(pack, blob), ..self },
            BlobType::Data => IndexState { data: self.data.with_blob(pack, blob), ..self },
        }
    }

    /// The state with the blobs `blobs`. Of a blob that several packs hold, the last place counts.
    pub open spec fn with_blobs(self, blobs: Seq<ListedBlob>) -> IndexState
        decreases blobs.len(),
    {
        if blobs.len() == 0 {
            self
        } else {
            self.with_blobs(blobs.drop_last()).with_blob(blobs.last().0, blobs.last().1)
        }
    }

    /// The state without the data blobs.
    pub open spec fn without_data(self) -> IndexState {
        IndexState { data: TypeState::empty(Keeps::Nothing), ..self }
    }
}

/// The entries of one blob type.
#[derive(Debug)]
enum Entries {
    Nothing,
    Ids(SortedMap<Id, ()>),
    Full(SortedMap<Id, (PackId, BlobLocation)>),
}

#[derive(Debug)]
struct TypeIndex {
    total_size: u64,
    entries: Entries,
}

impl View for TypeIndex {
    type V = TypeState;

    closed spec fn view(&self) -> TypeState {
        match self.entries {
            Entries::Nothing => TypeState {
                keeps: Keeps::Nothing,
                found: Map::empty(),
                known: Set::empty(),
                size: self.total_size,
            },
            Entries::Ids(ids) => TypeState {
                keeps: Keeps::Ids,
                found: Map::empty(),
                known: ids@.dom(),
                size: self.total_size,
            },
            Entries::Full(entries) => TypeState {
                keeps: Keeps::Entries,
                found: entries@,
                known: entries@.dom(),
                size: self.total_size,
            },
        }
    }
}

impl TypeIndex {
    fn new(keeps: Keeps) -> (r: Self)
        ensures
            r@ == TypeState::empty(keeps),
    {
        let entries = match keeps {
            Keeps::Nothing => Entries::Nothing,
            Keeps::Ids => Entries::Ids(SortedMap::new()),
            Keeps::Entries => Entries::Full(SortedMap::new()),
        };
        let r = TypeIndex { total_size: 0, entries };
        assert(r@.known =~= Set::empty());
        r
    }

    fn add_blob(&mut self, pack: PackId, blob: &IndexBlob)
        ensures
            final(self)@ == old(self)@.with_blob(pack, *blob),
    {
        match &mut self.entries {
            Entries::Nothing => {},
            Entries::Ids(ids) => {
                let _ = ids.insert(blob.id.0, ());
            },
            Entries::Full(entries) => {
                let _ = entries.insert(blob.id.0, (pack, blob.location));
            },
        }
        self.total_size = self.total_size.saturating_add(blob.location.length as u64);
        proof {
            if old(self)@.keeps is Ids || old(self)@.keeps is Entries {
                assert(self@.known =~= old(self)@.known.insert(blob.id.0));
            }
        }
    }

    fn get(&self, id: &Id) -> (r: Option<(PackId, BlobLocation)>)
        ensures
            r == if self@.found.contains_key(*id) {
                Some(self@.found[*id])
            } else {
                None
            },
    {
        match &self.entries {
            Entries::Full(entries) => match entries.get(id) {
                Some(entry) => Some(*entry),
                None => None,
            },
            Entries::Nothing | Entries::Ids(_) => None,
        }
    }

    fn has(&self, id: &Id) -> (r: bool)
        ensures
            r == self@.known.contains(*id),
    {
        match &self.entries {
            Entries::Nothing => false,
            Entries::Ids(ids) => ids.contains_key(id),
            Entries::Full(entries) => entries.contains_key(id),
        }
    }
}

/// Blobs one after the other give the state with all of them.
proof fn lemma_with_more(state: IndexState, first: Seq<ListedBlob>, second: Seq<ListedBlob>)
    ensures
        state.with_blobs(first + second) == state.with_blobs(first).with_blobs(second),
    decreases second.len(),
{
    if second.len() == 0 {
        assert(first + second =~= first);
    } else {
        assert((first + second).drop_last() =~= first + second.drop_last());
        lemma_with_more(state, first, second.drop_last());
    }
}

/// Collects the packs of index files.
#[derive(Debug)]
pub struct IndexCollector {
    tree: TypeIndex,
    data: TypeIndex,
}

impl View for IndexCollector {
    type V = IndexState;

    closed spec fn view(&self) -> IndexState {
        IndexState { tree: self.tree@, data: self.data@ }
    }
}

impl IndexCollector {
    /// Creates a collector without packs.
    pub fn new(tpe: IndexType) -> (r: Self)
        ensures
            r@ == IndexState::empty(tpe),
    {
        let data = match tpe {
            IndexType::Full => Keeps::Entries,
            IndexType::DataIds => Keeps::Ids,
            IndexType::OnlyTrees => Keeps::Nothing,
        };
        IndexCollector { tree: TypeIndex::new(Keeps::Entries), data: TypeIndex::new(data) }
    }

    /// Adds the blobs of the pack `pack`.
    fn add_pack(&mut self, pack: &IndexPack)
        ensures
            final(self)@ == old(self)@.with_blobs(pack_blobs(*pack)),
    {
        let n: usize = pack.blobs.len();
        let ghost blobs = pack_blobs(*pack);
        assert(blobs.take(0) =~= Seq::empty());
        for i in 0..n
            invariant
                n == pack.blobs.len(),
                blobs == pack_blobs(*pack),
                self@ == old(self)@.with_blobs(blobs.take(i as int)),
        {
            let blob = &pack.blobs[i];
            proof {
                let next = blobs.take(i + 1);
                assert(next.drop_last() =~= blobs.take(i as int));
                assert(next.last() == (pack.id, *blob));
            }
            match blob.tpe {
                BlobType::Tree => self.tree.add_blob(pack.id, blob),
                BlobType::Data => self.data.add_blob(pack.id, blob),
            }
        }
        assert(blobs.take(n as int) =~= blobs);
    }

    /// Adds the blobs of the packs `packs`.
    pub fn extend(&mut self, packs: &Vec<IndexPack>)
        ensures
            final(self)@ == old(self)@.with_blobs(packs_blobs(packs@)),
    {
        let n: usize = packs.len();
        assert(packs@.take(0) =~= Seq::empty());
        for i in 0..n
            invariant
                n == packs.len(),
                self@ == old(self)@.with_blobs(packs_blobs(packs@.take(i as int))),
        {
            let pack = &packs[i];
            proof {
                let next = packs@.take(i + 1);
                assert(next.drop_last() =~= packs@.take(i as int));
                assert(next.last() == *pack);
                lemma_with_more(
                    old(self)@,
                    packs_blobs(packs@.take(i as int)),
                    pack_blobs(*pack),
                );
            }
            self.add_pack(pack);
        }
        assert(packs@.take(n as int) =~= packs@);
    }

    /// Gives the index of the packs.
    pub fn into_index(self) -> (r: Index)
        ensures
            r@ == self@,
    {
        Index { tree: self.tree, data: self.data }
    }
}

/// An index.
#[derive(Debug)]
pub struct Index {
    tree: TypeIndex,
    data: TypeIndex,
}

impl View for Index {
    type V = IndexState;

    closed spec fn view(&self) -> IndexState {
        IndexState { tree: self.tree@, data: self.data@ }
    }
}

impl Index {
    /// Gives the index without the data blobs.
    pub fn drop_data(self) -> (r: Self)
        ensures
            r@ == self@.without_data(),
    {
        Index { tree: self.tree, data: TypeIndex::new(Keeps::Nothing) }
    }
}

/// The entry of the blob `id` in the state `state`.
pub open spec fn state_entry(state: IndexState, tpe: BlobType, id: Id) -> Option<IndexEntry> {
    let found = state.of(tpe).found;
    if found.contains_key(id) {
        Some(IndexEntry { blob_type: tpe, pack: found[id].0, location: found[id].1 })
    } else {
        None
    }
}

impl ReadIndex for Index {
    open spec fn entry(&self, tpe: BlobType, id: Id) -> Option<IndexEntry> {
        state_entry(self@, tpe, id)
    }

    open spec fn size(&self, tpe: BlobType) -> u64 {
        self@.of(tpe).size
    }

    open spec fn knows(&self, tpe: BlobType, id: Id) -> bool {
        self@.of(tpe).known.contains(id)
    }

    fn get_id(&self, tpe: BlobType, id: &BlobId) -> (r: Option<IndexEntry>) {
        let found = match tpe {
            BlobType::Tree => self.tree.get(&id.0),
            BlobType::Data => self.data.get(&id.0),
        };
        match found {
            Some((pack, location)) => Some(IndexEntry::new(tpe, pack, location)),
            None => None,
        }
    }

    fn total_size(&self, tpe: BlobType) -> (r: u64) {
        match tpe {
            BlobType::Tree => self.tree.total_size,
            BlobType::Data => self.data.total_size,
        }
    }

    fn has(&self, tpe: BlobType, id: &BlobId) -> (r: bool) {
        match tpe {
            BlobType::Tree => self.tree.has(&id.0),
            BlobType::Data => self.data.has(&id.0),
        }
    }
}

/// Calls [`Arc::try_unwrap`], which gives the value if there is no other owner, and else gives the
/// owner back.
///
/// Other threads can own the value, so nothing is said about which of the two happens.
#[verifier::external_body]
fn try_unwrap(index: Arc<Index>) -> (r: Result<Index, Arc<Index>>)
    ensures
        match r {
            Ok(value) => value == *index,
            Err(owner) => owner == index,
        },
{
    Arc::try_unwrap(index)
}

/// A shared index.
#[derive(Debug)]
pub struct GlobalIndex {
    /// The index.
    pub index: Arc<Index>,
}

impl Clone for GlobalIndex {
    fn clone(&self) -> (r: Self)
        ensures
            r == *self,
    {
        GlobalIndex { index: self.index.clone() }
    }
}

impl ReadIndex for GlobalIndex {
    open spec fn entry(&self, tpe: BlobType, id: Id) -> Option<IndexEntry> {
        state_entry(self.index@, tpe, id)
    }

    open spec fn size(&self, tpe: BlobType) -> u64 {
        self.index@.of(tpe).size
    }

    open spec fn knows(&self, tpe: BlobType, id: Id) -> bool {
        self.index@.of(tpe).known.contains(id)
    }

    fn get_id(&self, tpe: BlobType, id: &BlobId) -> (r: Option<IndexEntry>) {
        self.index.get_id(tpe, id)
    }

    fn total_size(&self, tpe: BlobType) -> (r: u64) {
        self.index.total_size(tpe)
    }

    fn has(&self, tpe: BlobType, id: &BlobId) -> (r: bool) {
        self.index.has(tpe, id)
    }
}

impl ReadGlobalIndex for GlobalIndex {

}

/// A step of the conversion of a global index into an index.
#[derive(Debug)]
pub enum IntoIndex {
    /// The index.
    Ready(Index),
    /// Another user still holds the index. Wait [`INDEX_TRY_WAIT`] milliseconds, then try again.
    Wait {
        /// The index.
        index: GlobalIndex,
        /// The number of waits, with this one.
        waits: u64,
    },
    /// Another user holds the index after the last try.
    Failed(RusticError),
}

/// Whether `r` is the first error of `files`, or the index of the packs of all files.
pub open spec fn is_collected(
    start: IndexState,
    files: Seq<RusticResult<IndexFile>>,
    r: RusticResult<GlobalIndex>,
) -> bool {
    match r {
        Ok(index) => (forall|i: int| 0 <= i < files.len() ==> (#[trigger] files[i]) is Ok)
            && index.index@ == start.with_blobs(files_blobs(files)),
        Err(err) => exists|i: int|
            0 <= i < files.len() && #[trigger] files[i] == Err::<IndexFile, RusticError>(err) && (
            forall|j: int| 0 <= j < i ==> (#[trigger] files[j]) is Ok),
    }
}

impl GlobalIndex {
    /// Creates a global index of `index`.
    pub fn new_from_index(index: Index) -> (r: Self)
        ensures
            *r.index == index,
    {
        GlobalIndex { index: Arc::new(index) }
    }

    /// Adds the packs of the files `files` to `collector`, and gives the index of all packs.
    ///
    /// # Errors
    ///
    /// * The first error of `files`.
    pub fn collect(collector: IndexCollector, files: Vec<RusticResult<IndexFile>>) -> (r:
        RusticResult<Self>)
        ensures
            is_collected(collector@, files@, r),
    {
        let mut all = collector;
        let ghost start = collector@;
        let ghost given = files@;
        assert(given.take(0) =~= Seq::empty());
        for file in it: files
            invariant
                it.seq() == given,
                forall|j: int| 0 <= j < it.index() ==> (#[trigger] given[j]) is Ok,
                all@ == start.with_blobs(files_blobs(given.take(it.index()))),
        {
            match file {
                Ok(file) => {
                    assert(given[it.index()] == Ok::<IndexFile, RusticError>(file));
                    proof {
                        let next = given.take(it.index() + 1);
                        assert(next.drop_last() =~= given.take(it.index()));
                        lemma_with_more(
                            start,
                            files_blobs(given.take(it.index())),
                            packs_blobs(file.packs@),
                        );
                    }
                    all.extend(&file.packs);
                },
                Err(err) => {
                    assert(given[it.index()] == Err::<IndexFile, RusticError>(err));
                    return Err(err);
                },
            }
        }
        assert(given.take(given.len() as int) =~= given);
        Ok(Self::new_from_index(all.into_index()))
    }

    /// Collects the index files of a repository with `collector`.
    ///
    /// # Errors
    ///
    /// * If the index cannot be read.
    fn new_from_collector(files: IndexStream, collector: IndexCollector) -> (r: RusticResult<Self>)
        ensures
            Self::is_read_from(files, collector@, r),
    {
        match files {
            Ok(files) => Self::collect(collector, files),
            Err(err) => Err(err),
        }
    }

    /// Whether `r` is the index of the files `files`, read with a collector in the state `start`.
    pub open spec fn is_read_from(
        files: IndexStream,
        start: IndexState,
        r: RusticResult<GlobalIndex>,
    ) -> bool {
        match files {
            Ok(files) => is_collected(start, files@, r),
            Err(err) => r == Err::<GlobalIndex, RusticError>(err),
        }
    }

    /// Creates the index of a repository.
    ///
    /// # Arguments
    ///
    /// * `files` - The index files that the backend gives
    ///
    /// # Errors
    ///
    /// * If the index cannot be read.
    pub fn new(files: IndexStream) -> (r: RusticResult<Self>)
        ensures
            Self::is_read_from(files, IndexState::empty(IndexType::Full), r),
    {
        Self::new_from_collector(files, IndexCollector::new(IndexType::Full))
    }

    /// Creates the index of a repository, with the entries of the tree blobs and the IDs of the
    /// data blobs.
    ///
    /// # Arguments
    ///
    /// * `files` - The index files that the backend gives
    ///
    /// # Errors
    ///
    /// * If the index cannot be read.
    pub fn only_full_trees(files: IndexStream) -> (r: RusticResult<Self>)
        ensures
            Self::is_read_from(files, IndexState::empty(IndexType::DataIds), r),
    {
        Self::new_from_collector(files, IndexCollector::new(IndexType::DataIds))
    }

    /// Whether `r` is the step of the conversion after a try that gave `tried`, and after `waits`
    /// waits.
    pub open spec fn conversion_step(
        tried: Result<Index, Arc<Index>>,
        waits: u64,
        r: IntoIndex,
    ) -> bool {
        match tried {
            Ok(index) => r == IntoIndex::Ready(index),
            Err(index) => if waits < MAX_INDEX_TRIES {
                r == IntoIndex::Wait { index: GlobalIndex { index }, waits: (waits + 1) as u64 }
            } else {
                r == IntoIndex::Failed(
                    RusticError::IndexInUse { tries: MAX_INDEX_TRIES, wait: INDEX_TRY_WAIT },
                )
            },
        }
    }

    /// Gives the step of the conversion after a try that gave `tried`, and after `waits` waits.
    pub fn after_try(tried: Result<Index, Arc<Index>>, waits: u64) -> (r: IntoIndex)
        ensures
            Self::conversion_step(tried, waits, r),
    {
        match tried {
            Ok(index) => IntoIndex::Ready(index),
            Err(index) => {
                if waits < MAX_INDEX_TRIES {
                    IntoIndex::Wait { index: GlobalIndex { index }, waits: waits + 1 }
                } else {
                    IntoIndex::Failed(
                        RusticError::IndexInUse { tries: MAX_INDEX_TRIES, wait: INDEX_TRY_WAIT },
                    )
                }
            },
        }
    }

    /// Tries to convert the global index into an index, after `waits` waits.
    ///
    /// Other threads can still hold the index for a short time after they shut down. Thus the
    /// caller waits and tries again, up to a fixed number of tries. The first try has 0 waits.
    pub fn into_index(self, waits: u64) -> (r: IntoIndex)
        ensures
            Self::conversion_step(Ok(*self.index), waits, r) || Self::conversion_step(
                Err(self.index),
                waits,
                r,
            ),
    {
        Self::after_try(try_unwrap(self.index), waits)
    }

    /// Gives the global index of `index` without the data blobs.
    pub fn drop_data(index: Index) -> (r: Self)
        ensures
            r.index@ == index@.without_data(),
    {
        Self::new_from_index(index.drop_data())
    }
}

/// Whether `blobs` holds the blob `id` with the type `tpe`, in the pack `pack` at `location`.
pub open spec fn holds_at(
    blobs: Seq<ListedBlob>,
    tpe: BlobType,
    id: Id,
    pack: PackId,
    location: BlobLocation,
) -> bool {
    blobs.contains((pack, IndexBlob { id: BlobId(id), tpe, location }))
}

/// Whether `blobs` holds the blob `id` with the type `tpe`.
pub open spec fn holds(blobs: Seq<ListedBlob>, tpe: BlobType, id: Id) -> bool {
    exists|pack: PackId, location: BlobLocation| #[trigger]
        holds_at(blobs, tpe, id, pack, location)
}

/// Blobs with one more blob hold that blob and what they held.
proof fn lemma_holds(blobs: Seq<ListedBlob>, tpe: BlobType, id: Id)
    requires
        blobs.len() > 0,
    ensures
        forall|pack: PackId, location: BlobLocation| #[trigger]
            holds_at(blobs, tpe, id, pack, location) <==> holds_at(
                blobs.drop_last(),
                tpe,
                id,
                pack,
                location,
            ) || blobs.last() == (pack, IndexBlob { id: BlobId(id), tpe, location }),
        holds(blobs, tpe, id) <==> holds(blobs.drop_last(), tpe, id) || (blobs.last().1.tpe == tpe
            && blobs.last().1.id.0 == id),
{
    let before = blobs.drop_last();
    let last = blobs.last();
    assert forall|pack: PackId, location: BlobLocation| #[trigger]
        holds_at(blobs, tpe, id, pack, location) <==> holds_at(before, tpe, id, pack, location)
            || last == (pack, IndexBlob { id: BlobId(id), tpe, location }) by {
        let blob = (pack, IndexBlob { id: BlobId(id), tpe, location });
        if blobs.contains(blob) {
            let i = choose|i: int| 0 <= i < blobs.len() && blobs[i] == blob;
            if i < before.len() {
                assert(before[i] == blob);
            }
        }
        if before.contains(blob) {
            let i = choose|i: int| 0 <= i < before.len() && before[i] == blob;
            assert(blobs[i] == blob);
        }
        assert(blobs[blobs.len() - 1] == last);
    }
    if holds(blobs, tpe, id) {
        let (pack, location) = choose|pack: PackId, location: BlobLocation| #[trigger]
            holds_at(blobs, tpe, id, pack, location);
        assert(holds_at(blobs, tpe, id, pack, location));
        assert(holds_at(before, tpe, id, pack, location) || last.1.tpe == tpe);
    }
    if holds(before, tpe, id) {
        let (pack, location) = choose|pack: PackId, location: BlobLocation| #[trigger]
            holds_at(before, tpe, id, pack, location);
        assert(holds_at(blobs, tpe, id, pack, location));
    }
    if last.1.tpe == tpe && last.1.id.0 == id {
        assert(last == (last.0, IndexBlob { id: BlobId(id), tpe, location: last.1.location }));
        assert(holds_at(blobs, tpe, id, last.0, last.1.location));
    }
}

/// An index of `blobs` has exactly these blobs.
proof fn lemma_index_of(tpe: IndexType, blobs: Seq<ListedBlob>, blob: BlobType, id: Id)
    ensures
        ({
            let state = IndexState::empty(tpe).with_blobs(blobs).of(blob);
            &&& state.keeps == tpe.keeps(blob)
            &&& state.found.contains_key(id) <==> tpe.keeps(blob) is Entries && holds(
                blobs,
                blob,
                id,
            )
            &&& state.found.contains_key(id) ==> holds_at(
                blobs,
                blob,
                id,
                state.found[id].0,
                state.found[id].1,
            )
            &&& state.known.contains(id) <==> !(tpe.keeps(blob) is Nothing) && holds(
                blobs,
                blob,
                id,
            )
            &&& state.size == capped(total_length(blobs, blob) as int)
        }),
    decreases blobs.len(),
{
    if blobs.len() == 0 {
        assert(!holds(blobs, blob, id));
    } else {
        lemma_index_of(tpe, blobs.drop_last(), blob, id);
        lemma_holds(blobs, blob, id);
    }
}

/// The index that [`GlobalIndex::new`] reads has exactly the blobs of its index files: it knows each
/// blob, and its entry is a place that a file lists for the blob. The total size is the length of
/// all blobs, up to the maximum of a size.
pub proof fn law_index_has_the_blobs(
    files: Vec<RusticResult<IndexFile>>,
    index: GlobalIndex,
    tpe: BlobType,
    id: Id,
)
    requires
        call_ensures(GlobalIndex::new, (Ok(files),), Ok(index)),
    ensures
        index.knows(tpe, id) <==> holds(files_blobs(files@), tpe, id),
        index.entry(tpe, id) is Some <==> holds(files_blobs(files@), tpe, id),
        index.entry(tpe, id) matches Some(entry) ==> entry.blob_type == tpe && holds_at(
            files_blobs(files@),
            tpe,
            id,
            entry.pack,
            entry.location,
        ),
        index.size(tpe) == capped(total_length(files_blobs(files@), tpe) as int),
{
    lemma_index_of(IndexType::Full, files_blobs(files@), tpe, id);
}

/// The index that [`GlobalIndex::only_full_trees`] reads knows exactly the blobs of its index files,
/// has exactly the tree blobs of these files, each at a place that a file lists for it, and has no
/// entry for a data blob.
pub proof fn law_tree_index_has_the_trees(
    files: Vec<RusticResult<IndexFile>>,
    index: GlobalIndex,
    tpe: BlobType,
    id: Id,
)
    requires
        call_ensures(GlobalIndex::only_full_trees, (Ok(files),), Ok(index)),
    ensures
        index.knows(tpe, id) <==> holds(files_blobs(files@), tpe, id),
        index.entry(tpe, id) is Some <==> tpe is Tree && holds(files_blobs(files@), tpe, id),
        index.entry(tpe, id) matches Some(entry) ==> entry.blob_type == tpe && holds_at(
            files_blobs(files@),
            tpe,
            id,
            entry.pack,
            entry.location,
        ),
        index.size(tpe) == capped(total_length(files_blobs(files@), tpe) as int),
{
    lemma_index_of(IndexType::DataIds, files_blobs(files@), tpe, id);
}

/// Where the index files list the blob `id` once, the entry of the index is that place.
pub proof fn law_entry_is_the_listed_place(
    files: Vec<RusticResult<IndexFile>>,
    index: GlobalIndex,
    tpe: BlobType,
    id: Id,
    pack: PackId,
    location: BlobLocation,
)
    requires
        call_ensures(GlobalIndex::new, (Ok(files),), Ok(index)),
        holds_at(files_blobs(files@), tpe, id, pack, location),
        forall|p: PackId, l: BlobLocation| #[trigger]
            holds_at(files_blobs(files@), tpe, id, p, l) ==> p == pack && l == location,
    ensures
        index.entry(tpe, id) == Some(IndexEntry { blob_type: tpe, pack, location }),
{
    law_index_has_the_blobs(files, index, tpe, id);
}

/// A conversion that always finds another user waits [`MAX_INDEX_TRIES`] times, and then fails.
pub proof fn law_conversion_stops(index: Arc<Index>, steps: Seq<IntoIndex>)
    requires
        steps.len() == MAX_INDEX_TRIES + 1,
        forall|i: int|
            0 <= i < steps.len() ==> GlobalIndex::conversion_step(
                Err(index),
                i as u64,
                #[trigger] steps[i],
            ),
    ensures
        forall|i: int|
            0 <= i < MAX_INDEX_TRIES ==> (#[trigger] steps[i]) == (IntoIndex::Wait {
                index: GlobalIndex { index },
                waits: (i + 1) as u64,
            }),
        steps.last() == IntoIndex::Failed(
            RusticError::IndexInUse { tries: MAX_INDEX_TRIES, wait: INDEX_TRY_WAIT },
        ),
{
}

/// Whether `read` gives what `stored` says for each place: for a file, whether the read goes through
/// a cache, and the position, the length and the length of the data of a part of the file.
pub open spec fn gives<F: FnOnce(FileType, Id, bool, BlobLocation) -> RusticResult<Bytes>>(
    read: F,
    stored: spec_fn(FileType, Id, bool, u32, u32, Option<u32>) -> RusticResult<Bytes>,
) -> bool {
    forall|tpe: FileType, id: Id, cacheable: bool, location: BlobLocation, r: RusticResult<Bytes>|
        #[trigger]
        call_ensures(read, (tpe, id, cacheable, location), r) ==> r == stored(
            tpe,
            id,
            cacheable,
            location.offset,
            location.length,
            location.uncompressed_length,
        )
}

/// A read of an entry reads the pack of the entry, at the position, with the length and with the
/// length of the data of the entry. The read of a tree goes through a cache, and the read of data
/// does not.
pub proof fn law_entry_reads_its_place<
    F: FnOnce(FileType, Id, bool, BlobLocation) -> RusticResult<Bytes>,
>(
    entry: IndexEntry,
    read: F,
    stored: spec_fn(FileType, Id, bool, u32, u32, Option<u32>) -> RusticResult<Bytes>,
    r: RusticResult<Bytes>,
)
    requires
        gives(read, stored),
        call_ensures(IndexEntry::read_data::<F>, (&entry, read), r),
    ensures
        r == stored(
            FileType::Pack,
            entry.pack.0,
            entry.blob_type == BlobType::Tree,
            entry.location.offset,
            entry.location.length,
            entry.location.uncompressed_length,
        ),
{
}

/// A blob that the index files list at one place has this place in the index, with its pack and
/// each number of its location. A read of it gives what is stored there. A blob that no file lists
/// has no place.
///
/// [`ReadIndex::blob_from_backend`] is [`ReadIndex::get_id`] and then [`IndexEntry::read_data`].
pub proof fn law_blob_is_read_from_its_listed_place<
    F: FnOnce(FileType, Id, bool, BlobLocation) -> RusticResult<Bytes>,
>(
    files: Vec<RusticResult<IndexFile>>,
    index: GlobalIndex,
    read: F,
    stored: spec_fn(FileType, Id, bool, u32, u32, Option<u32>) -> RusticResult<Bytes>,
    tpe: BlobType,
    id: BlobId,
    pack: PackId,
    location: BlobLocation,
    found: Option<IndexEntry>,
    r: RusticResult<Bytes>,
)
    requires
        call_ensures(GlobalIndex::new, (Ok(files),), Ok(index)),
        gives(read, stored),
        call_ensures(<GlobalIndex as ReadIndex>::get_id, (&index, tpe, &id), found),
        found is Some ==> call_ensures(IndexEntry::read_data::<F>, (&found->0, read), r),
    ensures
        files_blobs(files@).contains((pack, IndexBlob { id, tpe, location })) && (forall|
            p: PackId,
            l: BlobLocation,
        | #[trigger]
            files_blobs(files@).contains((p, IndexBlob { id, tpe, location: l })) ==> p == pack && l
                == location) ==> found is Some && r == stored(
            FileType::Pack,
            pack.0,
            tpe == BlobType::Tree,
            location.offset,
            location.length,
            location.uncompressed_length,
        ),
        (forall|p: PackId, l: BlobLocation|
            !#[trigger] files_blobs(files@).contains((p, IndexBlob { id, tpe, location: l })))
            ==> found is None,
{
    let blobs = files_blobs(files@);
    assert(BlobId(id.0) == id);
    law_index_has_the_blobs(files, index, tpe, id.0);
    if blobs.contains((pack, IndexBlob { id, tpe, location })) && (forall|
        p: PackId,
        l: BlobLocation,
    | #[trigger]
        blobs.contains((p, IndexBlob { id, tpe, location: l })) ==> p == pack && l == location) {
        assert(holds_at(blobs, tpe, id.0, pack, location));
        assert forall|p: PackId, l: BlobLocation| #[trigger]
            holds_at(blobs, tpe, id.0, p, l) implies p == pack && l == location by {
            assert(blobs.contains((p, IndexBlob { id, tpe, location: l })));
        }
        law_entry_is_the_listed_place(files, index, tpe, id.0, pack, location);
    }
    if forall|p: PackId, l: BlobLocation|
        !#[trigger] blobs.contains((p, IndexBlob { id, tpe, location: l })) {
        assert(!holds(blobs, tpe, id.0)) by {
            assert forall|p: PackId, l: BlobLocation| !#[trigger] holds_at(
                blobs,
                tpe,
                id.0,
                p,
                l,
            ) by {
                assert(!blobs.contains((p, IndexBlob { id, tpe, location: l })));
            }
        }
    }
}

/// The index files list a blob exactly if one of the files has a pack that has it.
pub proof fn law_listed_blobs_are_in_packs(files: Seq<RusticResult<IndexFile>>, listed: ListedBlob)
    ensures
        files_blobs(files).contains(listed) <==> exists|i: int, j: int, k: int|
            {
                &&& 0 <= i < files.len()
                &&& files[i] is Ok
                &&& 0 <= j < files[i]->Ok_0.packs@.len()
                &&& files[i]->Ok_0.packs@[j].id == listed.0
                &&& 0 <= k < files[i]->Ok_0.packs@[j].blobs@.len()
                &&& #[trigger] files[i]->Ok_0.packs@[j].blobs@[k] == listed.1
            },
    decreases files.len(),
{
    if files.len() > 0 {
        let last = files.len() - 1;
        let before = files.drop_last();
        law_listed_blobs_are_in_packs(before, listed);
        if files.last() is Ok {
            let packs = files.last()->Ok_0.packs@;
            lemma_packs_list(packs, listed);
            lemma_contains_sum(files_blobs(before), packs_blobs(packs), listed);
            if packs_blobs(packs).contains(listed) {
                let (j, k) = choose|j: int, k: int|
                    {
                        &&& 0 <= j < packs.len()
                        &&& packs[j].id == listed.0
                        &&& 0 <= k < packs[j].blobs@.len()
                        &&& #[trigger] packs[j].blobs@[k] == listed.1
                    };
                assert(files[last]->Ok_0.packs@[j].blobs@[k] == listed.1);
            }
        }
        if files_blobs(before).contains(listed) {
            let (i, j, k) = choose|i: int, j: int, k: int|
                {
                    &&& 0 <= i < before.len()
                    &&& before[i] is Ok
                    &&& 0 <= j < before[i]->Ok_0.packs@.len()
                    &&& before[i]->Ok_0.packs@[j].id == listed.0
                    &&& 0 <= k < before[i]->Ok_0.packs@[j].blobs@.len()
                    &&& #[trigger] before[i]->Ok_0.packs@[j].blobs@[k] == listed.1
                };
            assert(files[i] == before[i]);
            assert(files[i]->Ok_0.packs@[j].blobs@[k] == listed.1);
        }
        if exists|i: int, j: int, k: int|
            {
                &&& 0 <= i < files.len()
                &&& files[i] is Ok
                &&& 0 <= j < files[i]->Ok_0.packs@.len()
                &&& files[i]->Ok_0.packs@[j].id == listed.0
                &&& 0 <= k < files[i]->Ok_0.packs@[j].blobs@.len()
                &&& #[trigger] files[i]->Ok_0.packs@[j].blobs@[k] == listed.1
            } {
            let (i, j, k) = choose|i: int, j: int, k: int|
                {
                    &&& 0 <= i < files.len()
                    &&& files[i] is Ok
                    &&& 0 <= j < files[i]->Ok_0.packs@.len()
                    &&& files[i]->Ok_0.packs@[j].id == listed.0
                    &&& 0 <= k < files[i]->Ok_0.packs@[j].blobs@.len()
                    &&& #[trigger] files[i]->Ok_0.packs@[j].blobs@[k] == listed.1
                };
            if i < last {
                assert(before[i] == files[i]);
                assert(before[i]->Ok_0.packs@[j].blobs@[k] == listed.1);
            } else {
                assert(files.last()->Ok_0.packs@[j].blobs@[k] == listed.1);
            }
        }
    }
}

proof fn lemma_contains_sum(a: Seq<ListedBlob>, b: Seq<ListedBlob>, x: ListedBlob)
    ensures
        (a + b).contains(x) <==> a.contains(x) || b.contains(x),
{
    if a.contains(x) {
        let i = choose|i: int| 0 <= i < a.len() && a[i] == x;
        assert((a + b)[i] == x);
    }
    if b.contains(x) {
        let i = choose|i: int| 0 <= i < b.len() && b[i] == x;
        assert((a + b)[a.len() + i] == x);
    }
    if (a + b).contains(x) {
        let i = choose|i: int| 0 <= i < (a + b).len() && (a + b)[i] == x;
        if i < a.len() {
            assert(a[i] == x);
        } else {
            assert(b[i - a.len()] == x);
        }
    }
}

proof fn lemma_packs_list(packs: Seq<IndexPack>, listed: ListedBlob)
    ensures
        packs_blobs(packs).contains(listed) <==> exists|j: int, k: int|
            {
                &&& 0 <= j < packs.len()
                &&& packs[j].id == listed.0
                &&& 0 <= k < packs[j].blobs@.len()
                &&& #[trigger] packs[j].blobs@[k] == listed.1
            },
    decreases packs.len(),
{
    if packs.len() > 0 {
        let last = packs.len() - 1;
        let before = packs.drop_last();
        let pack = packs[last];
        lemma_packs_list(before, listed);
        lemma_contains_sum(packs_blobs(before), pack_blobs(pack), listed);
        if packs_blobs(before).contains(listed) {
            let (j, k) = choose|j: int, k: int|
                {
                    &&& 0 <= j < before.len()
                    &&& before[j].id == listed.0
                    &&& 0 <= k < before[j].blobs@.len()
                    &&& #[trigger] before[j].blobs@[k] == listed.1
                };
            assert(packs[j].blobs@[k] == listed.1);
        }
        if pack_blobs(pack).contains(listed) {
            let k = choose|k: int| 0 <= k < pack_blobs(pack).len() && pack_blobs(pack)[k] == listed;
            assert(packs[last].blobs@[k] == listed.1);
        }
        if exists|j: int, k: int|
            {
                &&& 0 <= j < packs.len()
                &&& packs[j].id == listed.0
                &&& 0 <= k < packs[j].blobs@.len()
                &&& #[trigger] packs[j].blobs@[k] == listed.1
            } {
            let (j, k) = choose|j: int, k: int|
                {
                    &&& 0 <= j < packs.len()
                    &&& packs[j].id == listed.0
                    &&& 0 <= k < packs[j].blobs@.len()
                    &&& #[trigger] packs[j].blobs@[k] == listed.1
                };
            if j < last {
                assert(before[j].blobs@[k] == listed.1);
            } else {
                assert(pack_blobs(pack)[k] == listed);
            }
        }
    }
}

/// A read through an index goes to the pack, the position and the lengths that the index has for
/// the blob, as the contract of [`ReadIndex::blob_from_backend`] says.
pub proof fn law_index_reads_its_entry<
    I: ReadIndex,
    F: FnOnce(FileType, Id, bool, BlobLocation) -> RusticResult<Bytes>,
>(
    index: I,
    read: F,
    stored: spec_fn(FileType, Id, bool, u32, u32, Option<u32>) -> RusticResult<Bytes>,
    tpe: BlobType,
    id: BlobId,
    found: Option<IndexEntry>,
    r: RusticResult<Bytes>,
)
    requires
        gives(read, stored),
        call_ensures(I::get_id, (&index, tpe, &id), found),
        index.entry(tpe, id.0) is Some ==> index.entry(tpe, id.0)->0.reads(read, r),
    ensures
        found is Some ==> r == stored(
            FileType::Pack,
            found->0.pack.0,
            found->0.blob_type == BlobType::Tree,
            found->0.location.offset,
            found->0.location.length,
            found->0.location.uncompressed_length,
        ),
{
}

/// The length of the data of a compressed blob is the length that its location lists. Without
/// compression, the length of the blob in the pack is the length of the data and 32 bytes of the
/// encryption.
pub proof fn law_data_length(location: BlobLocation, entry: IndexEntry, r: u32, q: u32)
    requires
        call_ensures(BlobLocation::data_length, (&location,), r),
        call_ensures(IndexEntry::data_length, (&entry,), q),
        entry.location == location,
    ensures
        q == r,
        location.uncompressed_length is Some ==> Some(r) == location.uncompressed_length,
        location.uncompressed_length is None ==> r + 32 == location.length,
{
}

/// The total length of blobs is the sum of the lengths in the packs of the blobs of the type.
pub proof fn law_lengths_add_up(
    a: Seq<ListedBlob>,
    b: Seq<ListedBlob>,
    blob: ListedBlob,
    tpe: BlobType,
)
    ensures
        total_length(Seq::<ListedBlob>::empty(), tpe) == 0,
        blob.1.tpe == tpe ==> total_length(seq![blob], tpe) == blob.1.location.length,
        blob.1.tpe != tpe ==> total_length(seq![blob], tpe) == 0,
        total_length(a + b, tpe) == total_length(a, tpe) + total_length(b, tpe),
    decreases b.len(),
{
    reveal_with_fuel(total_length, 2);
    assert(seq![blob].drop_last() =~= Seq::<ListedBlob>::empty());
    if b.len() == 0 {
        assert(a + b =~= a);
    } else {
        law_lengths_add_up(a, b.drop_last(), blob, tpe);
        assert((a + b).drop_last() =~= a + b.drop_last());
        assert((a + b).last() == b.last());
    }
}

/// The total size of an index is the total length of the listed blobs of the type. A sum above the
/// maximum gives the maximum.
pub proof fn law_total_size_is_the_sum(
    files: Vec<RusticResult<IndexFile>>,
    index: GlobalIndex,
    tpe: BlobType,
    r: u64,
)
    requires
        call_ensures(GlobalIndex::new, (Ok(files),), Ok(index)) || call_ensures(
            GlobalIndex::only_full_trees,
            (Ok(files),),
            Ok(index),
        ),
        call_ensures(<GlobalIndex as ReadIndex>::total_size, (&index, tpe), r),
    ensures
        total_length(files_blobs(files@), tpe) <= u64::MAX ==> r == total_length(
            files_blobs(files@),
            tpe,
        ),
        total_length(files_blobs(files@), tpe) > u64::MAX ==> r == u64::MAX,
{
    let any = arbitrary::<Id>();
    if call_ensures(GlobalIndex::new, (Ok(files),), Ok(index)) {
        law_index_has_the_blobs(files, index, tpe, any);
    } else {
        law_tree_index_has_the_trees(files, index, tpe, any);
    }
}

/// An index gives the entry that it has, with the type of the blob that was asked for, and knows
/// each blob that it has an entry for.
pub proof fn law_found_blobs_are_known(
    files: Vec<RusticResult<IndexFile>>,
    index: GlobalIndex,
    tpe: BlobType,
    id: BlobId,
    found: Option<IndexEntry>,
    known: bool,
)
    requires
        call_ensures(GlobalIndex::new, (Ok(files),), Ok(index)) || call_ensures(
            GlobalIndex::only_full_trees,
            (Ok(files),),
            Ok(index),
        ),
        call_ensures(<GlobalIndex as ReadIndex>::get_id, (&index, tpe, &id), found),
        call_ensures(<GlobalIndex as ReadIndex>::has, (&index, tpe, &id), known),
    ensures
        found is Some ==> known,
        found is Some ==> found->0.blob_type == tpe,
        known && tpe == BlobType::Tree ==> found is Some,
        call_ensures(GlobalIndex::new, (Ok(files),), Ok(index)) ==> (known <==> found is Some),
{
    if call_ensures(GlobalIndex::new, (Ok(files),), Ok(index)) {
        law_index_has_the_blobs(files, index, tpe, id.0);
    } else {
        law_tree_index_has_the_trees(files, index, tpe, id.0);
    }
}

/// An index without its data blobs has the same tree blobs with the same places and the same size,
/// and neither an entry nor a name of a data blob.
pub proof fn law_drop_data_keeps_the_trees(
    index: Index,
    without: Index,
    global: GlobalIndex,
    id: Id,
)
    requires
        call_ensures(Index::drop_data, (index,), without),
        call_ensures(GlobalIndex::drop_data, (index,), global),
    ensures
        without.entry(BlobType::Tree, id) == index.entry(BlobType::Tree, id),
        without.knows(BlobType::Tree, id) == index.knows(BlobType::Tree, id),
        without.size(BlobType::Tree) == index.size(BlobType::Tree),
        without.entry(BlobType::Data, id) is None,
        !without.knows(BlobType::Data, id),
        without.size(BlobType::Data) == 0,
        global.entry(BlobType::Tree, id) == index.entry(BlobType::Tree, id),
        global.knows(BlobType::Tree, id) == index.knows(BlobType::Tree, id),
        global.entry(BlobType::Data, id) is None,
        !global.knows(BlobType::Data, id),
{
}

/// An index that cannot be read is an error: the error of the listing, or the first error of a
/// file. An index whose files can all be read is no error.
pub proof fn law_first_unreadable_file_fails(
    files: Vec<RusticResult<IndexFile>>,
    listing: RusticError,
    r: RusticResult<GlobalIndex>,
    trees: RusticResult<GlobalIndex>,
    failed: RusticResult<GlobalIndex>,
    i: int,
)
    requires
        call_ensures(GlobalIndex::new, (Ok(files),), r),
        call_ensures(GlobalIndex::only_full_trees, (Ok(files),), trees),
        call_ensures(
            GlobalIndex::new,
            (Err::<Vec<RusticResult<IndexFile>>, RusticError>(listing),),
            failed,
        ),
        0 <= i <= files.len(),
        forall|j: int| 0 <= j < i ==> (#[trigger] files@[j]) is Ok,
    ensures
        i == files.len() ==> r is Ok && trees is Ok,
        i < files.len() && files@[i] is Err ==> {
            &&& r is Err
            &&& r->Err_0 == files@[i]->Err_0
            &&& trees is Err
            &&& trees->Err_0 == files@[i]->Err_0
        },
        failed is Err,
        failed->Err_0 == listing,
{
}

/// An index of trees only has exactly the tree blobs of its packs, each at a place that a pack lists
/// for it, and neither an entry nor a name of a data blob.
pub proof fn law_only_trees_are_kept(
    start: IndexCollector,
    collector: &mut IndexCollector,
    packs: Vec<IndexPack>,
    index: Index,
    id: Id,
)
    requires
        call_ensures(IndexCollector::new, (IndexType::OnlyTrees,), start),
        *old(collector) == start,
        call_ensures(IndexCollector::extend, (collector, &packs), ()),
        call_ensures(IndexCollector::into_index, (*final(collector),), index),
    ensures
        index.entry(BlobType::Data, id) is None,
        !index.knows(BlobType::Data, id),
        index.knows(BlobType::Tree, id) <==> holds(packs_blobs(packs@), BlobType::Tree, id),
        index.entry(BlobType::Tree, id) is Some <==> holds(packs_blobs(packs@), BlobType::Tree, id),
        index.entry(BlobType::Tree, id) matches Some(entry) ==> holds_at(
            packs_blobs(packs@),
            BlobType::Tree,
            id,
            entry.pack,
            entry.location,
        ),
{
    lemma_index_of(IndexType::OnlyTrees, packs_blobs(packs@), BlobType::Tree, id);
    lemma_index_of(IndexType::OnlyTrees, packs_blobs(packs@), BlobType::Data, id);
}

} // verus!
