//! A backend in memory.

use bytes::Bytes;
use vstd::prelude::*;

use crate::backend::{self, ReadBackend, WriteBackend};
use crate::buffer::{self, BytesList};
use crate::error::{RusticError, RusticResult};
use crate::file_type::{FileType, PerType};
use crate::id::Id;
use crate::sorted::{self, SortedMap};

verus! {

/// A backend that keeps its files in memory.
///
/// A cold backend gives a file only after a warm-up of this file.
#[derive(Debug)]
pub struct InMemoryBackend {
    map: PerType<SortedMap<Id, Bytes>>,
    is_cold: bool,
    warm: PerType<SortedMap<Id, ()>>,
}

impl InMemoryBackend {
    /// The files of the type `tpe`.
    pub closed spec fn files(&self, tpe: FileType) -> Map<Id, Seq<u8>> {
        self.map.of(tpe)@.map_values(|data: Bytes| buffer::bytes_seq(data))
    }

    /// Whether the backend is cold.
    pub closed spec fn cold(&self) -> bool {
        self.is_cold
    }

    /// The files of the type `tpe` that are warmed up.
    pub closed spec fn warmed(&self, tpe: FileType) -> Set<Id> {
        self.warm.of(tpe)@.dom()
    }

    /// Whether a read of the file `id` needs a warm-up before.
    pub open spec fn is_frozen(&self, tpe: FileType, id: Id) -> bool {
        self.cold() && !self.warmed(tpe).contains(id)
    }

    /// Whether `list` holds each file of the type `tpe` with its size, in the order of the IDs.
    pub open spec fn is_listing(&self, tpe: FileType, list: Seq<(Id, u32)>) -> bool {
        &&& sorted::ascending(list)
        &&& forall|i: int|
            0 <= i < list.len() ==> self.files(tpe).contains_key((#[trigger] list[i]).0)
                && self.files(tpe)[list[i].0].len() == list[i].1
        &&& forall|id: Id|
            #[trigger] self.files(tpe).contains_key(id) ==> exists|i: int|
                sorted::key_at(list, id, i)
    }

    /// Whether this backend has the files and the settings of `other`, apart from the files of
    /// the type `tpe`.
    pub open spec fn differs_only_in(&self, other: &Self, tpe: FileType) -> bool {
        &&& self.cold() == other.cold()
        &&& forall|t: FileType| #[trigger] self.warmed(t) == other.warmed(t)
        &&& forall|t: FileType| t != tpe ==> #[trigger] self.files(t) == other.files(t)
    }

    /// Tells if each file of the type `tpe` is small enough for a listing.
    pub fn fits_listing(&self, tpe: FileType) -> (r: bool)
        ensures
            r == self.can_list(tpe),
    {
        let files = self.map.get(tpe);
        files.reveal_order();
        let n: usize = files.len();
        for i in 0..n
            invariant
                n == files.sequence().len(),
                *files == self.map.of(tpe),
                forall|j: int|
                    0 <= j < n ==> files@.contains_key((#[trigger] files.sequence()[j]).0)
                        && files@[files.sequence()[j].0] == files.sequence()[j].1,
                forall|j: int|
                    0 <= j < i ==> buffer::bytes_seq((#[trigger] files.sequence()[j]).1).len()
                        <= u32::MAX,
        {
            let (id, data) = files.entry(i);
            let len: usize = buffer::as_slice(data).len();
            if len as u64 > 0xffff_ffff {
                assert(files@.contains_key(files.sequence()[i as int].0));
                assert(self.files(tpe).contains_key(*id));
                return false;
            }
        }
        proof {
            assert forall|id: Id| #[trigger]
                self.files(tpe).contains_key(id) implies self.files(tpe)[id].len() <= u32::MAX by {
                let k = choose|k: int| sorted::key_at(files.sequence(), id, k);
                assert(sorted::key_at(files.sequence(), id, k));
            }
        }
        true
    }

    /// Tells if a read of `length` bytes at `offset` of the file `id` stays inside the file, or
    /// fails because the file is not warmed up.
    pub fn fits_read(&self, tpe: FileType, id: &Id, offset: u32, length: u32) -> (r: bool)
        ensures
            r == self.can_read_partial(tpe, *id, offset, length),
    {
        if self.is_cold && !self.warm.get(tpe).contains_key(id) {
            return true;
        }
        match self.map.get(tpe).get(id) {
            Some(data) => {
                let len: usize = buffer::as_slice(data).len();
                offset <= u32::MAX - length && (offset + length) as u64 <= len as u64
            },
            None => false,
        }
    }

    /// Creates a backend without files.
    pub fn new() -> (r: Self)
        ensures
            !r.cold(),
            forall|tpe: FileType| #[trigger] r.files(tpe) == Map::<Id, Seq<u8>>::empty(),
            forall|tpe: FileType| #[trigger] r.warmed(tpe) == Set::<Id>::empty(),
    {
        Self::empty(false)
    }

    /// Creates a cold backend without files.
    pub fn new_cold() -> (r: Self)
        ensures
            r.cold(),
            forall|tpe: FileType| #[trigger] r.files(tpe) == Map::<Id, Seq<u8>>::empty(),
            forall|tpe: FileType| #[trigger] r.warmed(tpe) == Set::<Id>::empty(),
    {
        Self::empty(true)
    }

    fn empty(is_cold: bool) -> (r: Self)
        ensures
            r.cold() == is_cold,
            forall|tpe: FileType| #[trigger] r.files(tpe) == Map::<Id, Seq<u8>>::empty(),
            forall|tpe: FileType| #[trigger] r.warmed(tpe) == Set::<Id>::empty(),
    {
        let r = InMemoryBackend {
            map: PerType {
                config: SortedMap::new(),
                index: SortedMap::new(),
                key: SortedMap::new(),
                snapshot: SortedMap::new(),
                pack: SortedMap::new(),
            },
            is_cold,
            warm: PerType {
                config: SortedMap::new(),
                index: SortedMap::new(),
                key: SortedMap::new(),
                snapshot: SortedMap::new(),
                pack: SortedMap::new(),
            },
        };
        proof {
            assert forall|tpe: FileType| #[trigger] r.files(tpe) == Map::<Id, Seq<u8>>::empty() by {
                assert(r.files(tpe) =~= Map::<Id, Seq<u8>>::empty());
            }
            assert forall|tpe: FileType| #[trigger] r.warmed(tpe) == Set::<Id>::empty() by {
                assert(r.warmed(tpe) =~= Set::<Id>::empty());
            }
        }
        r
    }
}

impl Default for InMemoryBackend {
    fn default() -> (r: Self)
        ensures
            !r.cold(),
            forall|tpe: FileType| #[trigger] r.files(tpe) == Map::<Id, Seq<u8>>::empty(),
            forall|tpe: FileType| #[trigger] r.warmed(tpe) == Set::<Id>::empty(),
    {
        Self::new()
    }
}

impl ReadBackend for InMemoryBackend {
    open spec fn location_text(&self) -> Seq<char> {
        "test"@
    }

    open spec fn can_list(&self, tpe: FileType) -> bool {
        forall|id: Id|
            #[trigger] self.files(tpe).contains_key(id) ==> self.files(tpe)[id].len() <= u32::MAX
    }

    open spec fn lists(&self, tpe: FileType, r: Result<Seq<(Id, u32)>, RusticError>) -> bool {
        r is Ok && self.is_listing(tpe, r->Ok_0)
    }

    open spec fn can_read_full(&self, tpe: FileType, id: Id) -> bool {
        true
    }

    open spec fn reads_full(&self, tpe: FileType, id: Id, r: Result<Seq<u8>, RusticError>) -> bool {
        r == if self.is_frozen(tpe, id) {
            Err(RusticError::NotWarmedUp { tpe, id })
        } else if self.files(tpe).contains_key(id) {
            Ok(self.files(tpe)[id])
        } else {
            Err(RusticError::MissingElement { tpe, id })
        }
    }

    open spec fn can_read_partial(
        &self,
        tpe: FileType,
        id: Id,
        offset: u32,
        length: u32,
    ) -> bool {
        self.is_frozen(tpe, id) || (self.files(tpe).contains_key(id) && offset + length
            <= u32::MAX && offset + length <= self.files(tpe)[id].len())
    }

    open spec fn reads_partial(
        &self,
        tpe: FileType,
        id: Id,
        cacheable: bool,
        offset: u32,
        length: u32,
        r: Result<Seq<u8>, RusticError>,
    ) -> bool {
        r == if self.is_frozen(tpe, id) {
            Err(RusticError::NotWarmedUp { tpe, id })
        } else {
            Ok(self.files(tpe)[id].subrange(offset as int, offset + length))
        }
    }

    open spec fn warmup_text(&self, tpe: FileType, id: Id) -> Seq<char> {
        match tpe {
            FileType::Config => "config"@,
            FileType::Pack => "data/"@ + id.hex_digits().take(2) + "/"@ + id.hex_digits(),
            _ => tpe.dirname_text() + "/"@ + id.hex_digits(),
        }
    }

    open spec fn is_cold(&self) -> bool {
        self.cold()
    }

    open spec fn warms_up(
        &self,
        tpe: FileType,
        id: Id,
        r: RusticResult<()>,
        after: Self,
    ) -> bool {
        &&& r == Ok::<(), RusticError>(())
        &&& after.cold() == self.cold()
        &&& forall|t: FileType| #[trigger] after.files(t) == self.files(t)
        &&& forall|t: FileType| #[trigger]
            after.warmed(t) == if self.cold() && t == tpe {
                self.warmed(t).insert(id)
            } else {
                self.warmed(t)
            }
    }

    fn location(&self) -> (r: String) {
        let mut out = String::new();
        out.append("test");
        assert(out@ =~= "test"@);
        out
    }

    fn list_with_size(&self, tpe: FileType) -> (r: RusticResult<Vec<(Id, u32)>>) {
        let files = self.map.get(tpe);
        files.reveal_order();
        let mut list: Vec<(Id, u32)> = Vec::new();
        let n: usize = files.len();
        for i in 0..n
            invariant
                n == files.sequence().len(),
                *files == self.map.of(tpe),
                self.can_list(tpe),
                sorted::ascending(files.sequence()),
                forall|j: int|
                    0 <= j < files.sequence().len() ==> files@.contains_key(
                        (#[trigger] files.sequence()[j]).0,
                    ) && files@[files.sequence()[j].0] == files.sequence()[j].1,
                list.len() == i,
                forall|j: int|
                    0 <= j < i ==> (#[trigger] list[j]).0 == files.sequence()[j].0 && list[j].1
                        == buffer::bytes_seq(files.sequence()[j].1).len(),
        {
            let (id, data) = files.entry(i);
            assert(self.files(tpe).contains_key(*id));
            list.push((*id, buffer::as_slice(data).len() as u32));
        }
        proof {
            let entries = files.sequence();
            assert(sorted::ascending(list@)) by {
                assert forall|i: int, j: int| 0 <= i < j < list@.len() implies Id::before(
                    (#[trigger] list@[i]).0,
                    (#[trigger] list@[j]).0,
                ) by {
                    assert(entries[i].0.before(entries[j].0));
                }
            }
            assert forall|i: int| 0 <= i < list@.len() implies self.files(tpe).contains_key(
                (#[trigger] list@[i]).0,
            ) && self.files(tpe)[list@[i].0].len() == list@[i].1 by {
                assert(files@.contains_key(entries[i].0));
            }
            assert forall|id: Id| #[trigger] self.files(tpe).contains_key(id) implies exists|i: int|
                sorted::key_at(list@, id, i) by {
                let i = choose|i: int| sorted::key_at(entries, id, i);
                assert(sorted::key_at(entries, id, i));
                assert(sorted::key_at(list@, id, i));
            }
        }
        Ok(list)
    }

    fn read_full(&self, tpe: FileType, id: &Id) -> (r: RusticResult<Bytes>) {
        if self.is_cold && !self.warm.get(tpe).contains_key(id) {
            return Err(RusticError::NotWarmedUp { tpe, id: *id });
        }
        match self.map.get(tpe).get(id) {
            Some(data) => Ok(buffer::clone(data)),
            None => Err(RusticError::MissingElement { tpe, id: *id }),
        }
    }

    fn read_partial(
        &self,
        tpe: FileType,
        id: &Id,
        cacheable: bool,
        offset: u32,
        length: u32,
    ) -> (r: RusticResult<Bytes>) {
        if self.is_cold && !self.warm.get(tpe).contains_key(id) {
            return Err(RusticError::NotWarmedUp { tpe, id: *id });
        }
        match self.map.get(tpe).get(id) {
            Some(data) => Ok(buffer::slice(data, offset as usize, (offset + length) as usize)),
            None => Err(RusticError::MissingElement { tpe, id: *id }),
        }
    }

    fn warmup_path(&self, tpe: FileType, id: &Id) -> (r: String) {
        let mut out = String::new();
        match tpe {
            FileType::Config => {
                out.append("config");
            },
            FileType::Pack => {
                out.append("data/");
                out.append(id.hex_prefix().as_str());
                out.append("/");
                out.append(id.to_hex().as_str());
            },
            _ => {
                out.append(tpe.dirname());
                out.append("/");
                out.append(id.to_hex().as_str());
            },
        }
        assert(out@ =~= self.warmup_text(tpe, *id));
        out
    }

    fn needs_warm_up(&self) -> (r: bool) {
        self.is_cold
    }

    fn warm_up(&mut self, tpe: FileType, id: &Id) -> (r: RusticResult<()>) {
        if self.is_cold {
            let _ = self.warm.get_mut(tpe).insert(*id, ());
            proof {
                assert(self.warmed(tpe) =~= old(self).warmed(tpe).insert(*id));
            }
        }
        Ok(())
    }
}

impl WriteBackend for InMemoryBackend {
    open spec fn creates(&self, r: RusticResult<()>, after: Self) -> bool {
        r == Ok::<(), RusticError>(()) && after == *self
    }

    open spec fn can_write(&self, tpe: FileType, id: Id, content: Seq<u8>) -> bool {
        content.len() <= isize::MAX
    }

    open spec fn writes(
        &self,
        tpe: FileType,
        id: Id,
        cacheable: bool,
        content: Seq<u8>,
        r: RusticResult<()>,
        after: Self,
    ) -> bool {
        &&& after.differs_only_in(self, tpe)
        &&& after.files(tpe) == self.files(tpe).insert(id, content)
        &&& r == if self.files(tpe).contains_key(id) {
            Err(RusticError::IdExists { id })
        } else {
            Ok(())
        }
    }

    open spec fn can_remove(&self, tpe: FileType, id: Id) -> bool {
        true
    }

    open spec fn removes(
        &self,
        tpe: FileType,
        id: Id,
        cacheable: bool,
        r: RusticResult<()>,
        after: Self,
    ) -> bool {
        &&& after.differs_only_in(self, tpe)
        &&& after.files(tpe) == self.files(tpe).remove(id)
        &&& r == if self.files(tpe).contains_key(id) {
            Ok(())
        } else {
            Err(RusticError::IdMissing { id })
        }
    }

    fn create(&mut self) -> (r: RusticResult<()>) {
        Ok(())
    }

    fn write_bytes(
        &mut self,
        tpe: FileType,
        id: &Id,
        cacheable: bool,
        content: BytesList,
    ) -> (r: RusticResult<()>) {
        let data = content.collect();
        let previous = self.map.get_mut(tpe).insert(*id, data);
        proof {
            assert(self.files(tpe) =~= old(self).files(tpe).insert(*id, content@));
        }
        match previous {
            Some(_) => Err(RusticError::IdExists { id: *id }),
            None => Ok(()),
        }
    }

    fn remove(&mut self, tpe: FileType, id: &Id, cacheable: bool) -> (r: RusticResult<()>) {
        let previous = self.map.get_mut(tpe).remove(id);
        proof {
            assert(self.files(tpe) =~= old(self).files(tpe).remove(*id));
        }
        match previous {
            Some(_) => Ok(()),
            None => Err(RusticError::IdMissing { id: *id }),
        }
    }
}

/// The contents of the files of `map`.
spec fn contents(map: Map<Id, Bytes>) -> Map<Id, Seq<u8>> {
    map.map_values(|data: Bytes| buffer::bytes_seq(data))
}

/// Gives a copy of `files`.
fn copy_files(files: &SortedMap<Id, Bytes>) -> (r: SortedMap<Id, Bytes>)
    ensures
        contents(r@) == contents(files@),
{
    files.reveal_order();
    let mut copy: SortedMap<Id, Bytes> = SortedMap::new();
    let n: usize = files.len();
    for i in 0..n
        invariant
            n == files.sequence().len(),
            forall|j: int|
                0 <= j < n ==> files@.contains_key((#[trigger] files.sequence()[j]).0)
                    && files@[files.sequence()[j].0] == files.sequence()[j].1,
            forall|id: Id| #[trigger]
                copy@.contains_key(id) ==> contents(files@).contains_key(id)
                    && buffer::bytes_seq(copy@[id]) == contents(files@)[id],
            forall|j: int| 0 <= j < i ==> copy@.contains_key((#[trigger] files.sequence()[j]).0),
    {
        let (id, data) = files.entry(i);
        let _ = copy.insert(*id, buffer::clone(data));
    }
    proof {
        assert forall|id: Id| contents(files@).contains_key(id) implies #[trigger] copy@.contains_key(
            id,
        ) by {
            let entries = files.sequence();
            let i = choose|i: int| sorted::key_at(entries, id, i);
            assert(sorted::key_at(entries, id, i));
        }
        assert(contents(copy@) =~= contents(files@));
    }
    copy
}

/// Gives a copy of `ids`.
fn copy_ids(ids: &SortedMap<Id, ()>) -> (r: SortedMap<Id, ()>)
    ensures
        r@.dom() == ids@.dom(),
{
    ids.reveal_order();
    let mut copy: SortedMap<Id, ()> = SortedMap::new();
    let n: usize = ids.len();
    for i in 0..n
        invariant
            n == ids.sequence().len(),
            forall|j: int| 0 <= j < n ==> ids@.contains_key((#[trigger] ids.sequence()[j]).0),
            forall|id: Id| #[trigger] copy@.contains_key(id) ==> ids@.contains_key(id),
            forall|j: int| 0 <= j < i ==> copy@.contains_key((#[trigger] ids.sequence()[j]).0),
    {
        let (id, _) = ids.entry(i);
        let _ = copy.insert(*id, ());
    }
    proof {
        assert forall|id: Id| ids@.contains_key(id) implies #[trigger] copy@.contains_key(id) by {
            let entries = ids.sequence();
            let i = choose|i: int| sorted::key_at(entries, id, i);
            assert(sorted::key_at(entries, id, i));
        }
        assert(copy@.dom() =~= ids@.dom());
    }
    copy
}

impl Clone for InMemoryBackend {
    fn clone(&self) -> (r: Self)
        ensures
            r.cold() == self.cold(),
            forall|tpe: FileType| #[trigger] r.files(tpe) == self.files(tpe),
            forall|tpe: FileType| #[trigger] r.warmed(tpe) == self.warmed(tpe),
    {
        InMemoryBackend {
            map: PerType {
                config: copy_files(&self.map.config),
                index: copy_files(&self.map.index),
                key: copy_files(&self.map.key),
                snapshot: copy_files(&self.map.snapshot),
                pack: copy_files(&self.map.pack),
            },
            is_cold: self.is_cold,
            warm: PerType {
                config: copy_ids(&self.warm.config),
                index: copy_ids(&self.warm.index),
                key: copy_ids(&self.warm.key),
                snapshot: copy_ids(&self.warm.snapshot),
                pack: copy_ids(&self.warm.pack),
            },
        }
    }
}

/// After a write, a read gives what the write wrote, and the other files are as before.
///
/// A cold backend gives it after a warm-up.
pub proof fn law_read_after_write(
    before: InMemoryBackend,
    tpe: FileType,
    id: Id,
    cacheable: bool,
    content: Seq<u8>,
    written: RusticResult<()>,
    after: InMemoryBackend,
    other_tpe: FileType,
    other: Id,
    r: Result<Seq<u8>, RusticError>,
)
    requires
        before.writes(tpe, id, cacheable, content, written, after),
        after.reads_full(other_tpe, other, r),
    ensures
        (other_tpe, other) == (tpe, id) && !before.is_frozen(tpe, id) ==> r == Ok::<
            Seq<u8>,
            RusticError,
        >(content),
        (other_tpe, other) != (tpe, id) ==> before.reads_full(other_tpe, other, r),
{
    assert(after.warmed(other_tpe) == before.warmed(other_tpe));
    assert(other_tpe != tpe ==> after.files(other_tpe) == before.files(other_tpe));
}

/// After a removal, the backend does not hold the file, and the other files are as before.
pub proof fn law_read_after_remove(
    before: InMemoryBackend,
    tpe: FileType,
    id: Id,
    cacheable: bool,
    removed: RusticResult<()>,
    after: InMemoryBackend,
    other_tpe: FileType,
    other: Id,
    r: Result<Seq<u8>, RusticError>,
)
    requires
        before.removes(tpe, id, cacheable, removed, after),
        after.reads_full(other_tpe, other, r),
    ensures
        (other_tpe, other) == (tpe, id) ==> r is Err,
        (other_tpe, other) != (tpe, id) ==> before.reads_full(other_tpe, other, r),
{
    assert(after.warmed(other_tpe) == before.warmed(other_tpe));
    assert(other_tpe != tpe ==> after.files(other_tpe) == before.files(other_tpe));
}

/// A read of a part gives that part of what a read of the full file gives.
pub proof fn law_part_of_full(
    backend: InMemoryBackend,
    tpe: FileType,
    id: Id,
    cacheable: bool,
    offset: u32,
    length: u32,
    part: Result<Seq<u8>, RusticError>,
    full: Result<Seq<u8>, RusticError>,
)
    requires
        backend.can_read_partial(tpe, id, offset, length),
        backend.reads_partial(tpe, id, cacheable, offset, length, part),
        backend.reads_full(tpe, id, full),
    ensures
        part is Ok <==> full is Ok,
        part is Ok ==> part->Ok_0 == full->Ok_0.subrange(offset as int, offset + length),
        part is Err ==> part->Err_0 == full->Err_0,
{
}

/// A write of a file that the backend holds is an error that names the file, and a write of another
/// file is none. A removal of a file that the backend does not hold is an error that names the file,
/// and a removal of another file is none. So a write after a write fails, and so does a removal after
/// a removal.
pub proof fn law_repeated_changes_fail(
    a: &mut InMemoryBackend,
    b: &mut InMemoryBackend,
    tpe: FileType,
    id: Id,
    cacheable: bool,
    content: BytesList,
    more: BytesList,
    writes: (RusticResult<()>, RusticResult<()>),
    c: &mut InMemoryBackend,
    d: &mut InMemoryBackend,
    removals: (RusticResult<()>, RusticResult<()>),
)
    requires
        call_ensures(
            <InMemoryBackend as WriteBackend>::write_bytes,
            (a, tpe, &id, cacheable, content),
            writes.0,
        ),
        *old(b) == *final(a),
        call_ensures(
            <InMemoryBackend as WriteBackend>::write_bytes,
            (b, tpe, &id, cacheable, more),
            writes.1,
        ),
        *old(c) == *final(b),
        call_ensures(
            <InMemoryBackend as WriteBackend>::remove,
            (c, tpe, &id, cacheable),
            removals.0,
        ),
        *old(d) == *final(c),
        call_ensures(
            <InMemoryBackend as WriteBackend>::remove,
            (d, tpe, &id, cacheable),
            removals.1,
        ),
    ensures
        writes.0 is Ok <==> !old(a).files(tpe).contains_key(id),
        writes.0 is Err ==> writes.0->Err_0 == (RusticError::IdExists { id }),
        writes.1 is Err,
        writes.1->Err_0 == (RusticError::IdExists { id }),
        removals.0 is Ok,
        removals.1 is Err,
        removals.1->Err_0 == (RusticError::IdMissing { id }),
        final(b).files(tpe).contains_key(id) && final(b).files(tpe)[id] == more@,
        !final(d).files(tpe).contains_key(id),
{
}

/// A cold backend gives a file only after a warm-up of this file. Before that, a read is an error
/// that names the file. A warm-up of a file warms up no other file, and changes no file.
pub proof fn law_cold_files_need_a_warm_up(
    backend: &mut InMemoryBackend,
    tpe: FileType,
    id: Id,
    warmed: RusticResult<()>,
    before: RusticResult<Bytes>,
    after: RusticResult<Bytes>,
    other_tpe: FileType,
    other: Id,
    before_other: RusticResult<Bytes>,
    after_other: RusticResult<Bytes>,
)
    requires
        call_ensures(<InMemoryBackend as ReadBackend>::warm_up, (backend, tpe, &id), warmed),
        call_ensures(
            <InMemoryBackend as ReadBackend>::read_full,
            (&*old(backend), tpe, &id),
            before,
        ),
        call_ensures(
            <InMemoryBackend as ReadBackend>::read_full,
            (&*final(backend), tpe, &id),
            after,
        ),
        call_ensures(
            <InMemoryBackend as ReadBackend>::read_full,
            (&*old(backend), other_tpe, &other),
            before_other,
        ),
        call_ensures(
            <InMemoryBackend as ReadBackend>::read_full,
            (&*final(backend), other_tpe, &other),
            after_other,
        ),
        (other_tpe, other) != (tpe, id),
        old(backend).cold(),
    ensures
        warmed is Ok,
        !old(backend).warmed(tpe).contains(id) ==> before is Err && before->Err_0 == (
        RusticError::NotWarmedUp { tpe, id }),
        old(backend).files(tpe).contains_key(id) ==> after is Ok && buffer::bytes_seq(after->Ok_0)
            == old(backend).files(tpe)[id],
        !old(backend).files(tpe).contains_key(id) ==> after is Err && after->Err_0 == (
        RusticError::MissingElement { tpe, id }),
        backend::seen(before_other) == backend::seen(after_other),
{
    assert(final(backend).warmed(other_tpe) == if other_tpe == tpe {
        old(backend).warmed(other_tpe).insert(id)
    } else {
        old(backend).warmed(other_tpe)
    });
    assert(final(backend).files(other_tpe) == old(backend).files(other_tpe));
    assert(final(backend).files(tpe) == old(backend).files(tpe));
    assert(final(backend).warmed(tpe) == old(backend).warmed(tpe).insert(id));
}

/// A backend that is not cold gives each file without a warm-up, and no other file. A part has the
/// bytes of the file from its position on.
pub proof fn law_files_are_given_as_held(
    backend: InMemoryBackend,
    tpe: FileType,
    id: Id,
    cacheable: bool,
    offset: u32,
    length: u32,
    full: RusticResult<Bytes>,
    part: RusticResult<Bytes>,
    i: int,
)
    requires
        !backend.cold(),
        call_ensures(<InMemoryBackend as ReadBackend>::read_full, (&backend, tpe, &id), full),
        call_ensures(
            <InMemoryBackend as ReadBackend>::read_partial,
            (&backend, tpe, &id, cacheable, offset, length),
            part,
        ),
    ensures
        full is Ok <==> backend.files(tpe).contains_key(id),
        full is Ok ==> buffer::bytes_seq(full->Ok_0) == backend.files(tpe)[id],
        full is Err ==> full->Err_0 == (RusticError::MissingElement { tpe, id }),
        full is Ok && offset + length <= buffer::bytes_seq(full->Ok_0).len() ==> {
            &&& part is Ok
            &&& buffer::bytes_seq(part->Ok_0).len() == length
            &&& 0 <= i < length ==> buffer::bytes_seq(part->Ok_0)[i] == buffer::bytes_seq(
                full->Ok_0,
            )[offset + i]
        },
{
}

/// The listing of a type has each file of this type with its length exactly once, in ascending order
/// of the IDs, and nothing else.
pub proof fn law_listing_has_each_file(
    backend: InMemoryBackend,
    tpe: FileType,
    r: RusticResult<Vec<(Id, u32)>>,
    id: Id,
    size: u32,
    i: int,
    j: int,
)
    requires
        call_ensures(<InMemoryBackend as ReadBackend>::list_with_size, (&backend, tpe), r),
    ensures
        r is Ok,
        r->Ok_0@.contains((id, size)) <==> backend.files(tpe).contains_key(id)
            && backend.files(tpe)[id].len() == size,
        0 <= i < j < r->Ok_0.len() ==> (r->Ok_0@[i].0.hi < r->Ok_0@[j].0.hi || (r->Ok_0@[i].0.hi
            == r->Ok_0@[j].0.hi && r->Ok_0@[i].0.lo < r->Ok_0@[j].0.lo)),
{
    let list = r->Ok_0@;
    assert(backend.is_listing(tpe, list));
    if list.contains((id, size)) {
        let k = choose|k: int| 0 <= k < list.len() && list[k] == (id, size);
        assert(backend.files(tpe).contains_key(list[k].0));
    }
    if backend.files(tpe).contains_key(id) && backend.files(tpe)[id].len() == size {
        let k = choose|k: int| sorted::key_at(list, id, k);
        assert(sorted::key_at(list, id, k));
        assert(list[k] == (id, size));
    }
    if 0 <= i < j < list.len() {
        assert(Id::before(list[i].0, list[j].0));
    }
}

/// The path to warm up a file is the directory of its type and the digits of its ID. A pack is in a
/// directory with the first two digits of its ID. The config file has only its name.
pub proof fn law_warm_up_paths(
    backend: InMemoryBackend,
    tpe: FileType,
    id: Id,
    path: String,
    dirname: &'static str,
    hex: String,
)
    requires
        call_ensures(<InMemoryBackend as ReadBackend>::warmup_path, (&backend, tpe, &id), path),
        call_ensures(FileType::dirname, (tpe,), dirname),
        call_ensures(Id::to_hex, (&id,), hex),
        hex@.len() == 64,
    ensures
        tpe == FileType::Config ==> path@ == dirname@,
        tpe == FileType::Pack ==> path@ == dirname@ + seq!['/', hex@[0], hex@[1], '/'] + hex@,
        tpe == FileType::Index || tpe == FileType::Key || tpe == FileType::Snapshot ==> path@
            == dirname@ + seq!['/'] + hex@,
{
    reveal_strlit("/");
    reveal_strlit("data/");
    reveal_strlit("data");
    assert("/"@ =~= seq!['/']);
    assert("data/"@ =~= "data"@ + seq!['/']);
    if tpe == FileType::Pack {
        assert(path@ =~= dirname@ + seq!['/', hex@[0], hex@[1], '/'] + hex@);
    }
}

} // verus!
