//! The interface of a backend: a store of the files of a repository.
//!
//! A backend says with spec functions which results a call can have. The contract of each call
//! is that its result is one of these.

use bytes::Bytes;
use vstd::prelude::*;

use crate::buffer::{self, BytesList};
use crate::error::{RusticError, RusticResult};
use crate::file_type::FileType;
use crate::id::Id;

verus! {

/// The result of a read, with the bytes that it gives.
pub open spec fn seen(r: RusticResult<Bytes>) -> Result<Seq<u8>, RusticError> {
    match r {
        Ok(data) => Ok(buffer::bytes_seq(data)),
        Err(err) => Err(err),
    }
}

/// The result of a listing, with the files that it gives.
pub open spec fn listed(r: RusticResult<Vec<(Id, u32)>>) -> Result<Seq<(Id, u32)>, RusticError> {
    match r {
        Ok(list) => Ok(list@),
        Err(err) => Err(err),
    }
}

/// The IDs of the files of a listing.
pub open spec fn ids_of(r: Result<Seq<(Id, u32)>, RusticError>) -> Result<Seq<Id>, RusticError> {
    match r {
        Ok(list) => Ok(list.map_values(|file: (Id, u32)| file.0)),
        Err(err) => Err(err),
    }
}

/// A backend that gives files.
pub trait ReadBackend: Sized {
    /// The location of the backend.
    spec fn location_text(&self) -> Seq<char>;

    /// Whether a listing of the files of the type `tpe` returns.
    spec fn can_list(&self, tpe: FileType) -> bool;

    /// Whether a listing of the files of the type `tpe` can give `r`.
    spec fn lists(&self, tpe: FileType, r: Result<Seq<(Id, u32)>, RusticError>) -> bool;

    /// Whether a read of a full file returns.
    spec fn can_read_full(&self, tpe: FileType, id: Id) -> bool;

    /// Whether a read of a full file can give `r`.
    spec fn reads_full(&self, tpe: FileType, id: Id, r: Result<Seq<u8>, RusticError>) -> bool;

    /// Whether a read of a part of a file returns.
    spec fn can_read_partial(&self, tpe: FileType, id: Id, offset: u32, length: u32) -> bool;

    /// Whether a read of a part of a file can give `r`.
    spec fn reads_partial(
        &self,
        tpe: FileType,
        id: Id,
        cacheable: bool,
        offset: u32,
        length: u32,
        r: Result<Seq<u8>, RusticError>,
    ) -> bool;

    /// The path to warm up a file.
    spec fn warmup_text(&self, tpe: FileType, id: Id) -> Seq<char>;

    /// Whether the backend needs a warm-up of each file before a read.
    spec fn is_cold(&self) -> bool;

    /// Whether a warm-up of a file can give `r` and leave the backend `after`.
    spec fn warms_up(&self, tpe: FileType, id: Id, r: RusticResult<()>, after: Self) -> bool;

    /// Gives the location of the backend.
    fn location(&self) -> (r: String)
        ensures
            r@ == self.location_text(),
    ;

    /// Lists the files of the type `tpe` with their sizes.
    fn list_with_size(&self, tpe: FileType) -> (r: RusticResult<Vec<(Id, u32)>>)
        requires
            self.can_list(tpe),
        ensures
            self.lists(tpe, listed(r)),
    ;

    /// Lists the files of the type `tpe`.
    fn list(&self, tpe: FileType) -> (r: RusticResult<Vec<Id>>)
        requires
            self.can_list(tpe),
        ensures
            exists|files: Result<Seq<(Id, u32)>, RusticError>|
                #[trigger] self.lists(tpe, files) && ids_of(files) == (match r {
                    Ok(ids) => Ok(ids@),
                    Err(err) => Err(err),
                }),
    {
        match self.list_with_size(tpe) {
            Ok(files) => {
                let ids = ids_of_files(&files);
                assert(self.lists(tpe, Ok(files@)));
                Ok(ids)
            },
            Err(err) => {
                assert(self.lists(tpe, Err(err)));
                Err(err)
            },
        }
    }

    /// Reads a full file.
    fn read_full(&self, tpe: FileType, id: &Id) -> (r: RusticResult<Bytes>)
        requires
            self.can_read_full(tpe, *id),
        ensures
            self.reads_full(tpe, *id, seen(r)),
    ;

    /// Reads `length` bytes of a file at the position `offset`.
    fn read_partial(
        &self,
        tpe: FileType,
        id: &Id,
        cacheable: bool,
        offset: u32,
        length: u32,
    ) -> (r: RusticResult<Bytes>)
        requires
            self.can_read_partial(tpe, *id, offset, length),
        ensures
            self.reads_partial(tpe, *id, cacheable, offset, length, seen(r)),
    ;

    /// Gives the path to warm up a file.
    fn warmup_path(&self, tpe: FileType, id: &Id) -> (r: String)
        ensures
            r@ == self.warmup_text(tpe, *id),
    ;

    /// Tells if the backend needs a warm-up of each file before a read.
    fn needs_warm_up(&self) -> (r: bool)
        ensures
            r == self.is_cold(),
    ;

    /// Warms up a file.
    fn warm_up(&mut self, tpe: FileType, id: &Id) -> (r: RusticResult<()>)
        ensures
            old(self).warms_up(tpe, *id, r, *final(self)),
    ;
}

/// A backend that gives and takes files.
pub trait WriteBackend: ReadBackend {
    /// Whether a creation of the backend can give `r` and leave the backend `after`.
    spec fn creates(&self, r: RusticResult<()>, after: Self) -> bool;

    /// Whether a write returns.
    spec fn can_write(&self, tpe: FileType, id: Id, content: Seq<u8>) -> bool;

    /// Whether a write can give `r` and leave the backend `after`.
    spec fn writes(
        &self,
        tpe: FileType,
        id: Id,
        cacheable: bool,
        content: Seq<u8>,
        r: RusticResult<()>,
        after: Self,
    ) -> bool;

    /// Whether a removal returns.
    spec fn can_remove(&self, tpe: FileType, id: Id) -> bool;

    /// Whether a removal can give `r` and leave the backend `after`.
    spec fn removes(
        &self,
        tpe: FileType,
        id: Id,
        cacheable: bool,
        r: RusticResult<()>,
        after: Self,
    ) -> bool;

    /// Creates the backend.
    fn create(&mut self) -> (r: RusticResult<()>)
        ensures
            old(self).creates(r, *final(self)),
    ;

    /// Writes a file.
    fn write_bytes(
        &mut self,
        tpe: FileType,
        id: &Id,
        cacheable: bool,
        content: BytesList,
    ) -> (r: RusticResult<()>)
        requires
            old(self).can_write(tpe, *id, content@),
        ensures
            old(self).writes(tpe, *id, cacheable, content@, r, *final(self)),
    ;

    /// Removes a file.
    fn remove(&mut self, tpe: FileType, id: &Id, cacheable: bool) -> (r: RusticResult<()>)
        requires
            old(self).can_remove(tpe, *id),
        ensures
            old(self).removes(tpe, *id, cacheable, r, *final(self)),
    ;
}

/// Gives the IDs of `files`.
pub fn ids_of_files(files: &Vec<(Id, u32)>) -> (r: Vec<Id>)
    ensures
        r@ == files@.map_values(|file: (Id, u32)| file.0),
{
    let mut ids: Vec<Id> = Vec::new();
    let n: usize = files.len();
    for i in 0..n
        invariant
            n == files.len(),
            ids.len() == i,
            forall|j: int| 0 <= j < i ==> ids[j] == files[j].0,
    {
        ids.push(files[i].0);
    }
    assert(ids@ =~= files@.map_values(|file: (Id, u32)| file.0));
    ids
}

/// The IDs of a listing are the IDs of its files, one for each file, in the order of the files.
pub proof fn law_ids_follow_the_files(files: Vec<(Id, u32)>, ids: Vec<Id>, i: int)
    requires
        call_ensures(ids_of_files, (&files,), ids),
        0 <= i < files.len(),
    ensures
        ids.len() == files.len(),
        ids@[i] == files@[i].0,
        ids_of(listed(Ok(files))) == Ok::<Seq<Id>, RusticError>(ids@),
{
}

} // verus!
