//! A backend that caches the files of another backend.
//!
//! The reads of a [`CachedBackend`] take what the cache answered, and tell what goes into the cache.
//! A write and a removal take the function that does the same to the cache.

use bytes::Bytes;
use vstd::prelude::*;

use crate::backend::{self, ReadBackend, WriteBackend};
use crate::buffer::{self, BytesList};
use crate::cache::Cache;
use crate::error::{RusticError, RusticResult};
use crate::file_type::FileType;
use crate::id::Id;
use crate::in_memory::InMemoryBackend;

verus! {

/// What a read of the cache gave.
#[derive(Debug)]
pub enum Cached {
    /// The data.
    Hit(Bytes),
    /// The cache does not hold the file.
    Miss,
    /// The read failed. This gives only a warning.
    Failed,
}

/// The result of a read, and the file that goes into the cache after it.
#[derive(Debug)]
pub struct CachedRead {
    /// The result.
    pub result: RusticResult<Bytes>,
    /// The full file to write to the cache.
    pub store: Option<Bytes>,
}

/// The result of a write or a removal, and what the cache answered before it.
#[derive(Debug)]
pub struct CachedChange {
    /// The result of the backend.
    pub result: RusticResult<()>,
    /// The result of the cache, if the call accesses the cache. An error gives only a warning.
    pub cached: Option<RusticResult<()>>,
}

impl CachedRead {
    /// The content that goes into the cache.
    pub open spec fn stored(&self) -> Option<Seq<u8>> {
        match self.store {
            Some(data) => Some(buffer::bytes_seq(data)),
            None => None,
        }
    }
}

/// The part of the file `id` with the content or the error `full`.
pub open spec fn part_of(
    tpe: FileType,
    id: Id,
    offset: u32,
    length: u32,
    full: Result<Seq<u8>, RusticError>,
) -> Result<Seq<u8>, RusticError> {
    match full {
        Ok(data) => if offset + length <= data.len() {
            Ok(data.subrange(offset as int, offset + length))
        } else {
            Err(
                RusticError::ShortFile {
                    tpe,
                    id,
                    file_length: data.len() as usize,
                    offset,
                    length,
                },
            )
        },
        Err(err) => Err(err),
    }
}

/// Gives the part of the file `id` with the content `data`.
///
/// # Errors
///
/// * If the file is shorter than the end of the range.
pub fn part(tpe: FileType, id: &Id, offset: u32, length: u32, data: &Bytes) -> (r: RusticResult<
    Bytes,
>)
    ensures
        backend::seen(r) == part_of(tpe, *id, offset, length, Ok(buffer::bytes_seq(*data))),
{
    let bytes = buffer::as_slice(data);
    let start: usize = offset as usize;
    let file_length: usize = bytes.len();
    match start.checked_add(length as usize) {
        Some(end) if end <= file_length => Ok(
            buffer::copy_from_slice(vstd::slice::slice_subrange(bytes, start, end)),
        ),
        _ => Err(RusticError::ShortFile { tpe, id: *id, file_length, offset, length }),
    }
}

/// A backend that caches the files of the backend `be` in the cache `cache`.
#[verifier::reject_recursive_types(BE)]
#[derive(Debug)]
pub struct CachedBackend<BE: WriteBackend> {
    /// The backend to cache.
    pub be: BE,
    /// The cache.
    pub cache: Cache,
}

impl<BE: WriteBackend + Clone> Clone for CachedBackend<BE> {
    fn clone(&self) -> (r: Self)
        ensures
            cloned(self.be, r.be),
            r.cache.location_text() == self.cache.location_text(),
    {
        CachedBackend { be: self.be.clone(), cache: self.cache.clone() }
    }
}

impl<BE: WriteBackend> CachedBackend<BE> {
    /// Whether a call for a file of the type `tpe` accesses the cache.
    pub open spec fn caches(tpe: FileType, cacheable: bool) -> bool {
        cacheable || tpe.cacheable()
    }

    /// Creates a backend that caches the files of `be` in `cache`.
    pub fn new_cache(be: BE, cache: Cache) -> (r: Self)
        ensures
            r.be == be,
            r.cache == cache,
    {
        CachedBackend { be, cache }
    }

    /// Tells if a call for a file of the type `tpe` accesses the cache.
    ///
    /// # Arguments
    ///
    /// * `tpe` - The type of the file
    /// * `cacheable` - Whether the caller wants this file in the cache
    pub fn uses_cache(tpe: FileType, cacheable: bool) -> (r: bool)
        ensures
            r == Self::caches(tpe, cacheable),
    {
        cacheable || tpe.is_cacheable()
    }

    /// Gives the location of the backend.
    pub fn location(&self) -> (r: String)
        ensures
            r@ == self.be.location_text(),
    {
        self.be.location()
    }

    /// Lists the files of the type `tpe` with their sizes.
    ///
    /// # Returns
    ///
    /// The list, and whether the caller removes the files from the cache that are not in the list.
    pub fn list_with_size(&self, tpe: FileType) -> (r: (RusticResult<Vec<(Id, u32)>>, bool))
        requires
            self.be.can_list(tpe),
        ensures
            self.be.lists(tpe, backend::listed(r.0)),
            r.1 == (r.0 is Ok && tpe.cacheable()),
    {
        let list = self.be.list_with_size(tpe);
        let clean = list.is_ok() && tpe.is_cacheable();
        (list, clean)
    }

    /// Reads a full file.
    ///
    /// # Arguments
    ///
    /// * `tpe` - The type of the file
    /// * `id` - The ID of the file
    /// * `cached` - What the cache gave, if the call accesses the cache
    pub fn read_full(&self, tpe: FileType, id: &Id, cached: Cached) -> (r: CachedRead)
        requires
            !(tpe.cacheable() && cached is Hit) ==> self.be.can_read_full(tpe, *id),
        ensures
            match cached {
                Cached::Hit(data) if tpe.cacheable() => backend::seen(r.result) == Ok::<
                    Seq<u8>,
                    RusticError,
                >(buffer::bytes_seq(data)) && r.stored() is None,
                _ => {
                    let full = backend::seen(r.result);
                    &&& self.be.reads_full(tpe, *id, full)
                    &&& r.stored() == if tpe.cacheable() && full is Ok {
                        Some(full->Ok_0)
                    } else {
                        None
                    }
                },
            },
    {
        if tpe.is_cacheable() {
            match cached {
                Cached::Hit(data) => {
                    return CachedRead { result: Ok(data), store: None };
                },
                Cached::Miss | Cached::Failed => {},
            }
            let result = self.be.read_full(tpe, id);
            let store = match &result {
                Ok(data) => Some(buffer::clone(data)),
                Err(_) => None,
            };
            CachedRead { result, store }
        } else {
            CachedRead { result: self.be.read_full(tpe, id), store: None }
        }
    }

    /// Reads a part of a file.
    ///
    /// A read of a file for the cache that the cache does not give reads the full file from the
    /// backend. The file must hold the full range. A shorter file does not go into the cache,
    /// because a later read of the cached file gives the same error.
    ///
    /// # Arguments
    ///
    /// * `tpe` - The type of the file
    /// * `id` - The ID of the file
    /// * `cacheable` - Whether the caller wants this file in the cache
    /// * `offset` - The position of the part
    /// * `length` - The length of the part
    /// * `cached` - What the cache gave, if the call accesses the cache
    pub fn read_partial(
        &self,
        tpe: FileType,
        id: &Id,
        cacheable: bool,
        offset: u32,
        length: u32,
        cached: Cached,
    ) -> (r: CachedRead)
        requires
            Self::caches(tpe, cacheable) && !(cached is Hit) ==> self.be.can_read_full(tpe, *id),
            !Self::caches(tpe, cacheable) ==> self.be.can_read_partial(tpe, *id, offset, length),
        ensures
            self.partial_outcome(tpe, *id, cacheable, offset, length, cached, r),
    {
        if cacheable || tpe.is_cacheable() {
            match cached {
                Cached::Hit(data) => {
                    return CachedRead { result: Ok(data), store: None };
                },
                Cached::Miss | Cached::Failed => {},
            }
            match self.be.read_full(tpe, id) {
                Ok(data) => {
                    let ghost full: Result<Seq<u8>, RusticError> = Ok(buffer::bytes_seq(data));
                    assert(self.be.reads_full(tpe, *id, full));
                    match part(tpe, id, offset, length, &data) {
                        Ok(part) => CachedRead { result: Ok(part), store: Some(data) },
                        Err(err) => CachedRead { result: Err(err), store: None },
                    }
                },
                Err(err) => {
                    assert(self.be.reads_full(tpe, *id, Err(err)));
                    CachedRead { result: Err(err), store: None }
                },
            }
        } else {
            CachedRead {
                result: self.be.read_partial(tpe, id, cacheable, offset, length),
                store: None,
            }
        }
    }

    /// Whether a read of a part of a file can give `r` if the cache gave `cached`.
    pub open spec fn partial_outcome(
        &self,
        tpe: FileType,
        id: Id,
        cacheable: bool,
        offset: u32,
        length: u32,
        cached: Cached,
        r: CachedRead,
    ) -> bool {
        match cached {
            _ if !Self::caches(tpe, cacheable) => self.be.reads_partial(
                tpe,
                id,
                cacheable,
                offset,
                length,
                backend::seen(r.result),
            ) && r.stored() is None,
            Cached::Hit(data) => backend::seen(r.result) == Ok::<Seq<u8>, RusticError>(
                buffer::bytes_seq(data),
            ) && r.stored() is None,
            Cached::Miss | Cached::Failed => exists|full: Result<Seq<u8>, RusticError>|
                {
                    &&& #[trigger] self.be.reads_full(tpe, id, full)
                    &&& backend::seen(r.result) == part_of(tpe, id, offset, length, full)
                    &&& r.stored() == if r.result is Ok {
                        Some(full->Ok_0)
                    } else {
                        None
                    }
                },
        }
    }

    /// Tells if the backend needs a warm-up of each file before a read.
    pub fn needs_warm_up(&self) -> (r: bool)
        ensures
            r == self.be.is_cold(),
    {
        self.be.needs_warm_up()
    }

    /// Warms up a file.
    pub fn warm_up(&mut self, tpe: FileType, id: &Id) -> (r: RusticResult<()>)
        ensures
            old(self).be.warms_up(tpe, *id, r, final(self).be),
            final(self).cache == old(self).cache,
    {
        self.be.warm_up(tpe, id)
    }

    /// Gives the path to warm up a file.
    pub fn warmup_path(&self, tpe: FileType, id: &Id) -> (r: String)
        ensures
            r@ == self.be.warmup_text(tpe, *id),
    {
        self.be.warmup_path(tpe, id)
    }

    /// Creates the backend.
    pub fn create(&mut self) -> (r: RusticResult<()>)
        ensures
            old(self).be.creates(r, final(self).be),
            final(self).cache == old(self).cache,
    {
        self.be.create()
    }

    /// Writes a file, and before that writes it to the cache, if the call accesses the cache.
    ///
    /// A failed write to the cache does not change what the backend gets, nor the result.
    ///
    /// # Arguments
    ///
    /// * `tpe` - The type of the file
    /// * `id` - The ID of the file
    /// * `cacheable` - Whether the caller wants this file in the cache
    /// * `content` - The content of the file
    /// * `store` - Writes a file to the cache
    pub fn write_bytes<F: FnOnce(&Cache, FileType, &Id, &BytesList) -> RusticResult<()>>(
        &mut self,
        tpe: FileType,
        id: &Id,
        cacheable: bool,
        content: BytesList,
        store: F,
    ) -> (r: CachedChange)
        requires
            old(self).be.can_write(tpe, *id, content@),
            Self::caches(tpe, cacheable) ==> call_requires(
                store,
                (&old(self).cache, tpe, id, &content),
            ),
        ensures
            old(self).be.writes(tpe, *id, cacheable, content@, r.result, final(self).be),
            final(self).cache == old(self).cache,
            r.cached is Some == Self::caches(tpe, cacheable),
            r.cached matches Some(stored) ==> call_ensures(
                store,
                (&old(self).cache, tpe, id, &content),
                stored,
            ),
    {
        let cached = if Self::uses_cache(tpe, cacheable) {
            Some(store(&self.cache, tpe, id, &content))
        } else {
            None
        };
        CachedChange { result: self.be.write_bytes(tpe, id, cacheable, content), cached }
    }

    /// Removes a file, and before that removes it from the cache, if the call accesses the cache.
    ///
    /// A failed removal from the cache, for example of a file that the cache does not hold, does
    /// not change what the backend gets, nor the result.
    ///
    /// # Arguments
    ///
    /// * `tpe` - The type of the file
    /// * `id` - The ID of the file
    /// * `cacheable` - Whether the file can be in the cache
    /// * `discard` - Removes a file from the cache
    pub fn remove<F: FnOnce(&Cache, FileType, &Id) -> RusticResult<()>>(
        &mut self,
        tpe: FileType,
        id: &Id,
        cacheable: bool,
        discard: F,
    ) -> (r: CachedChange)
        requires
            old(self).be.can_remove(tpe, *id),
            Self::caches(tpe, cacheable) ==> call_requires(discard, (&old(self).cache, tpe, id)),
        ensures
            old(self).be.removes(tpe, *id, cacheable, r.result, final(self).be),
            final(self).cache == old(self).cache,
            r.cached is Some == Self::caches(tpe, cacheable),
            r.cached matches Some(discarded) ==> call_ensures(
                discard,
                (&old(self).cache, tpe, id),
                discarded,
            ),
    {
        let cached = if Self::uses_cache(tpe, cacheable) {
            Some(discard(&self.cache, tpe, id))
        } else {
            None
        };
        CachedChange { result: self.be.remove(tpe, id, cacheable), cached }
    }
}

/// A cache that holds what the backend holds does not change what a read of a part gives: it is
/// the part of a full file that the backend gives.
pub proof fn law_coherent_cache_is_transparent<BE: WriteBackend>(
    backend: CachedBackend<BE>,
    tpe: FileType,
    id: Id,
    cacheable: bool,
    offset: u32,
    length: u32,
    cached: Cached,
    r: CachedRead,
)
    requires
        CachedBackend::<BE>::caches(tpe, cacheable),
        backend.partial_outcome(tpe, id, cacheable, offset, length, cached, r),
        cached matches Cached::Hit(data) ==> exists|file: Seq<u8>| #[trigger]
            backend.be.reads_full(tpe, id, Ok(file)) && offset + length <= file.len()
                && buffer::bytes_seq(data) == file.subrange(offset as int, offset + length),
    ensures
        exists|full: Result<Seq<u8>, RusticError>| #[trigger]
            backend.be.reads_full(tpe, id, full) && backend::seen(r.result) == part_of(
                tpe,
                id,
                offset,
                length,
                full,
            ),
{
    if let Cached::Hit(data) = cached {
        let file = choose|file: Seq<u8>| #[trigger]
            backend.be.reads_full(tpe, id, Ok(file)) && offset + length <= file.len()
                && buffer::bytes_seq(data) == file.subrange(offset as int, offset + length);
        let full: Result<Seq<u8>, RusticError> = Ok(file);
        assert(backend.be.reads_full(tpe, id, full));
    }
}

/// Only a full file of the backend goes into the cache, and a file that is too short for the read
/// does not.
pub proof fn law_cache_gets_full_files<BE: WriteBackend>(
    backend: CachedBackend<BE>,
    tpe: FileType,
    id: Id,
    cacheable: bool,
    offset: u32,
    length: u32,
    cached: Cached,
    r: CachedRead,
)
    requires
        backend.partial_outcome(tpe, id, cacheable, offset, length, cached, r),
        r.store is Some,
    ensures
        CachedBackend::<BE>::caches(tpe, cacheable),
        backend.be.reads_full(tpe, id, Ok(r.stored()->Some_0)),
        offset + length <= r.stored()->Some_0.len(),
        backend::seen(r.result) == Ok::<Seq<u8>, RusticError>(
            r.stored()->Some_0.subrange(offset as int, offset + length),
        ),
{
}

/// The files of a cache.
pub type CachedFiles = Map<(FileType, Id), Seq<u8>>;

/// Whether each file of the cache has the content that the backend gives for it.
pub open spec fn is_coherent<BE: WriteBackend>(files: CachedFiles, be: BE) -> bool {
    forall|tpe: FileType, id: Id| #[trigger]
        files.contains_key((tpe, id)) ==> be.reads_full(tpe, id, Ok(files[(tpe, id)]))
}

/// What a coherent cache gives for a full file is what the backend gives for it.
pub proof fn law_full_read_is_transparent<BE: WriteBackend>(
    backend: CachedBackend<BE>,
    files: CachedFiles,
    tpe: FileType,
    id: Id,
    cached: Cached,
    r: CachedRead,
)
    requires
        is_coherent(files, backend.be),
        cached matches Cached::Hit(data) ==> files.contains_key((tpe, id)) && files[(tpe, id)]
            == buffer::bytes_seq(data),
        call_ensures(CachedBackend::<BE>::read_full, (&backend, tpe, &id, cached), r),
    ensures
        backend.be.reads_full(tpe, id, backend::seen(r.result)),
        r.stored() matches Some(data) ==> backend.be.reads_full(tpe, id, Ok(data)),
{
}

/// The files that reads put into a coherent cache keep it coherent.
pub proof fn law_reads_keep_coherence<BE: WriteBackend>(
    backend: CachedBackend<BE>,
    files: CachedFiles,
    tpe: FileType,
    id: Id,
    stored: Seq<u8>,
)
    requires
        is_coherent(files, backend.be),
        backend.be.reads_full(tpe, id, Ok(stored)),
    ensures
        is_coherent(files.insert((tpe, id), stored), backend.be),
{
}

/// The files of a cache that answered `cached` to a write of `content` to the file `id`. A cache
/// that the write did not access, or that refused it, keeps its files.
pub open spec fn files_after_write(
    files: CachedFiles,
    tpe: FileType,
    id: Id,
    content: Seq<u8>,
    cached: Option<RusticResult<()>>,
) -> CachedFiles {
    match cached {
        Some(Ok(_)) => files.insert((tpe, id), content),
        _ => files,
    }
}

/// The files of a cache that answered `cached` to a removal of the file `id`. A cache that the
/// removal did not access, or that refused it, keeps its files.
pub open spec fn files_after_remove(
    files: CachedFiles,
    tpe: FileType,
    id: Id,
    cached: Option<RusticResult<()>>,
) -> CachedFiles {
    match cached {
        Some(Ok(_)) => files.remove((tpe, id)),
        _ => files,
    }
}

/// A write to a coherent cache and to a backend in memory keeps the cache coherent, unless the
/// backend needs a warm-up of the file, or the cache keeps an older file with the same ID.
pub proof fn law_write_keeps_coherence(
    before: InMemoryBackend,
    files: CachedFiles,
    tpe: FileType,
    id: Id,
    cacheable: bool,
    content: Seq<u8>,
    r: CachedChange,
    after: InMemoryBackend,
)
    requires
        is_coherent(files, before),
        !before.is_frozen(tpe, id),
        before.writes(tpe, id, cacheable, content, r.result, after),
        r.cached == Some(Ok::<(), RusticError>(())) || !files.contains_key((tpe, id)),
    ensures
        is_coherent(files_after_write(files, tpe, id, content, r.cached), after),
{
    let new_files = files_after_write(files, tpe, id, content, r.cached);
    assert forall|t: FileType, x: Id| #[trigger]
        new_files.contains_key((t, x)) implies after.reads_full(t, x, Ok(new_files[(t, x)])) by {
        assert(after.warmed(t) == before.warmed(t));
        if (t, x) != (tpe, id) {
            assert(files.contains_key((t, x)));
            assert(before.reads_full(t, x, Ok(files[(t, x)])));
            assert(t != tpe ==> after.files(t) == before.files(t));
        }
    }
}

/// A removal from a coherent cache and from a backend in memory keeps the cache coherent, unless the
/// cache keeps the file.
pub proof fn law_remove_keeps_coherence(
    before: InMemoryBackend,
    files: CachedFiles,
    tpe: FileType,
    id: Id,
    cacheable: bool,
    r: CachedChange,
    after: InMemoryBackend,
)
    requires
        is_coherent(files, before),
        before.removes(tpe, id, cacheable, r.result, after),
        r.cached == Some(Ok::<(), RusticError>(())) || !files.contains_key((tpe, id)),
    ensures
        is_coherent(files_after_remove(files, tpe, id, r.cached), after),
{
    let new_files = files_after_remove(files, tpe, id, r.cached);
    assert forall|t: FileType, x: Id| #[trigger]
        new_files.contains_key((t, x)) implies after.reads_full(t, x, Ok(new_files[(t, x)])) by {
        assert(files.contains_key((t, x)));
        assert(before.reads_full(t, x, Ok(files[(t, x)])));
        assert(after.warmed(t) == before.warmed(t));
        assert(t != tpe ==> after.files(t) == before.files(t));
    }
}

/// A call accesses the cache exactly if the caller wants it, or the file is an index file or a
/// snapshot file.
pub proof fn law_who_uses_the_cache<BE: WriteBackend>(tpe: FileType, cacheable: bool, r: bool)
    requires
        call_ensures(CachedBackend::<BE>::uses_cache, (tpe, cacheable), r),
    ensures
        r <==> cacheable || tpe == FileType::Index || tpe == FileType::Snapshot,
{
}

/// The part of a file has the asked length, and its bytes are the bytes of the file from the asked
/// position on. A file that ends before the part gives an error with the length of the file, the
/// position and the length of the part.
pub proof fn law_part_has_the_bytes(
    tpe: FileType,
    id: Id,
    offset: u32,
    length: u32,
    data: Bytes,
    r: RusticResult<Bytes>,
    i: int,
)
    requires
        call_ensures(part, (tpe, &id, offset, length, &data), r),
        0 <= i < length,
    ensures
        r is Ok <==> offset + length <= buffer::bytes_seq(data).len(),
        r is Ok ==> buffer::bytes_seq(r->Ok_0).len() == length,
        r is Ok ==> buffer::bytes_seq(r->Ok_0)[i] == buffer::bytes_seq(data)[offset + i],
        r is Err ==> r->Err_0 == (RusticError::ShortFile {
            tpe,
            id,
            file_length: buffer::bytes_seq(data).len() as usize,
            offset,
            length,
        }),
{
    let all = buffer::bytes_seq(data);
    if offset + length <= all.len() {
        assert(backend::seen(r) == Ok::<Seq<u8>, RusticError>(
            all.subrange(offset as int, offset + length),
        ));
    }
}

/// An empty part of a file is empty, at each position up to the end of the file.
pub proof fn law_empty_part(tpe: FileType, id: Id, offset: u32, data: Bytes, r: RusticResult<Bytes>)
    requires
        call_ensures(part, (tpe, &id, offset, 0u32, &data), r),
    ensures
        r is Ok <==> offset <= buffer::bytes_seq(data).len(),
        r is Ok ==> buffer::bytes_seq(r->Ok_0).len() == 0,
{
    let all = buffer::bytes_seq(data);
    if offset <= all.len() {
        assert(all.subrange(offset as int, offset + 0u32).len() == 0);
    }
}

/// A read of a full file that does not use the cache asks the backend, and puts nothing into the
/// cache. A read that uses the cache gives what the cache has, and does not ask the backend. If the
/// cache has nothing, it asks the backend, and puts the full file into the cache.
pub proof fn law_full_read_asks_the_cache_first<BE: WriteBackend>(
    backend: CachedBackend<BE>,
    tpe: FileType,
    id: Id,
    cached: Cached,
    r: CachedRead,
)
    requires
        call_ensures(CachedBackend::<BE>::read_full, (&backend, tpe, &id, cached), r),
    ensures
        ({
            let held = tpe == FileType::Index || tpe == FileType::Snapshot;
            &&& !held ==> r.store is None && backend.be.reads_full(
                tpe,
                id,
                backend::seen(r.result),
            )
            &&& held && cached is Hit ==> {
                &&& r.store is None
                &&& r.result is Ok
                &&& buffer::bytes_seq(r.result->Ok_0) == buffer::bytes_seq(cached->Hit_0)
            }
            &&& held && !(cached is Hit) ==> {
                &&& backend.be.reads_full(tpe, id, backend::seen(r.result))
                &&& r.result is Err ==> r.store is None
                &&& r.result is Ok ==> r.store is Some && buffer::bytes_seq(r.store->0)
                    == buffer::bytes_seq(r.result->Ok_0)
            }
        }),
{
}

/// A read of a part that does not use the cache asks the backend for this part, and puts nothing into
/// the cache. A read that uses the cache gives what the cache has. If the cache has nothing, it reads
/// the full file from the backend, gives the asked bytes of it, and puts the full file into the
/// cache. A file that ends before the part is an error, and does not go into the cache.
pub proof fn law_part_read_asks_the_cache_first<BE: WriteBackend>(
    backend: CachedBackend<BE>,
    tpe: FileType,
    id: Id,
    cacheable: bool,
    offset: u32,
    length: u32,
    cached: Cached,
    r: CachedRead,
)
    requires
        call_ensures(
            CachedBackend::<BE>::read_partial,
            (&backend, tpe, &id, cacheable, offset, length, cached),
            r,
        ),
    ensures
        ({
            let held = cacheable || tpe == FileType::Index || tpe == FileType::Snapshot;
            &&& !held ==> r.store is None && backend.be.reads_partial(
                tpe,
                id,
                cacheable,
                offset,
                length,
                backend::seen(r.result),
            )
            &&& held && cached is Hit ==> {
                &&& r.store is None
                &&& r.result is Ok
                &&& buffer::bytes_seq(r.result->Ok_0) == buffer::bytes_seq(cached->Hit_0)
            }
            &&& held && !(cached is Hit) && r.result is Ok ==> {
                let full = buffer::bytes_seq(r.store->0);
                &&& r.store is Some
                &&& backend.be.reads_full(tpe, id, Ok(full))
                &&& offset + length <= full.len()
                &&& buffer::bytes_seq(r.result->Ok_0) == full.skip(offset as int).take(
                    length as int,
                )
            }
            &&& held && !(cached is Hit) && r.result is Err ==> {
                &&& r.store is None
                &&& backend.be.reads_full(tpe, id, Err(r.result->Err_0)) || exists|full: Seq<u8>|
                    {
                        &&& #[trigger] backend.be.reads_full(tpe, id, Ok(full))
                        &&& full.len() < offset + length
                        &&& r.result->Err_0 == (RusticError::ShortFile {
                            tpe,
                            id,
                            file_length: full.len() as usize,
                            offset,
                            length,
                        })
                    }
            }
        }),
{
    let held = cacheable || tpe == FileType::Index || tpe == FileType::Snapshot;
    if held && !(cached is Hit) {
        let full = choose|full: Result<Seq<u8>, RusticError>|
            {
                &&& #[trigger] backend.be.reads_full(tpe, id, full)
                &&& backend::seen(r.result) == part_of(tpe, id, offset, length, full)
                &&& r.stored() == if r.result is Ok {
                    Some(full->Ok_0)
                } else {
                    None
                }
            };
        if full is Ok {
            let data = full->Ok_0;
            assert(backend.be.reads_full(tpe, id, Ok(data)));
            if offset + length <= data.len() {
                assert(data.subrange(offset as int, offset + length) =~= data.skip(
                    offset as int,
                ).take(length as int));
            }
        } else {
            assert(backend.be.reads_full(tpe, id, Err(full->Err_0)));
        }
    }
}

/// A listing of the backend cleans the cache exactly if the listing succeeded and the files are
/// index files or snapshot files. The result of the listing is the result of the backend.
pub proof fn law_listing_cleans_the_cache<BE: WriteBackend>(
    backend: CachedBackend<BE>,
    tpe: FileType,
    r: (RusticResult<Vec<(Id, u32)>>, bool),
)
    requires
        call_ensures(CachedBackend::<BE>::list_with_size, (&backend, tpe), r),
    ensures
        backend.be.lists(tpe, backend::listed(r.0)),
        r.1 <==> r.0 is Ok && (tpe == FileType::Index || tpe == FileType::Snapshot),
{
}

/// A write and a removal go to the cache exactly if the call uses the cache, for the same file and
/// with the same content. They go to the backend in each case, and the backend alone gives the
/// result.
pub proof fn law_changes_go_to_cache_and_backend<
    BE: WriteBackend,
    F: FnOnce(&Cache, FileType, &Id, &BytesList) -> RusticResult<()>,
    G: FnOnce(&Cache, FileType, &Id) -> RusticResult<()>,
>(
    backend: &mut CachedBackend<BE>,
    other: &mut CachedBackend<BE>,
    tpe: FileType,
    id: Id,
    cacheable: bool,
    content: BytesList,
    store: F,
    discard: G,
    written: CachedChange,
    removed: CachedChange,
)
    requires
        call_ensures(
            CachedBackend::<BE>::write_bytes::<F>,
            (backend, tpe, &id, cacheable, content, store),
            written,
        ),
        call_ensures(
            CachedBackend::<BE>::remove::<G>,
            (other, tpe, &id, cacheable, discard),
            removed,
        ),
    ensures
        ({
            let held = cacheable || tpe == FileType::Index || tpe == FileType::Snapshot;
            &&& written.cached is Some <==> held
            &&& removed.cached is Some <==> held
            &&& held ==> call_ensures(
                store,
                (&old(backend).cache, tpe, &id, &content),
                written.cached->0,
            )
            &&& held ==> call_ensures(discard, (&old(other).cache, tpe, &id), removed.cached->0)
        }),
        old(backend).be.writes(tpe, id, cacheable, content@, written.result, final(backend).be),
        old(other).be.removes(tpe, id, cacheable, removed.result, final(other).be),
        final(backend).cache == old(backend).cache,
        final(other).cache == old(other).cache,
{
}

} // verus!
