//! A cache of repository files in a directory.
//!
//! A [`Cache`] decides which file operations an access to the cache needs, and what their outcomes
//! mean. The caller performs the operations: it performs the operation of a step, gives the outcome
//! to the cache, and gets the next step.

use bytes::Bytes;
use vstd::prelude::*;

use crate::buffer;
use crate::error::{CacheStep, RusticError, RusticResult};
use crate::file_type::FileType;
use crate::id::{self, Id};
use crate::paths;
use crate::sorted::{self, SortedMap};
use crate::text;

verus! {

/// The directory of all caches, below the default directory for caches.
pub const CACHE_DIR_NAME: &'static str = "rustic";

/// The end of the name of a file that a write has not completed.
pub const TEMP_SUFFIX: &'static str = "-tmp-";

/// Whether `err` is the error of a failed file operation.
pub open spec fn is_step_error(
    err: RusticError,
    step: CacheStep,
    path: Seq<char>,
    source: Seq<char>,
) -> bool {
    err matches RusticError::CacheFile { step: s, path: p, source: t } && s == step && p@ == path
        && t@ == source
}

/// The outcome of a file operation that gives nothing.
#[derive(Debug)]
pub enum Outcome {
    /// The operation succeeded.
    Done,
    /// The file could not be opened.
    OpenFailed(String),
    /// The operation failed.
    Failed(String),
}

/// The outcome of a file operation that needs an existing file.
#[derive(Debug)]
pub enum Found<T> {
    /// The operation succeeded.
    Done(T),
    /// The file does not exist.
    NotFound,
    /// The operation failed.
    Failed(String),
}

/// A step of the creation of a cache.
#[derive(Debug)]
pub enum NewStep {
    /// Create the directory `path`, then the tag of a cache directory in it.
    CreateRoot {
        /// The directory.
        path: String,
    },
    /// Ensure the tag of a cache directory in the directory `path`.
    EnsureTag {
        /// The directory.
        path: String,
    },
    /// Create the directory `path` of the cache of one repository.
    CreateRepository {
        /// The directory.
        path: String,
    },
    /// The cache is there.
    Done(Cache),
    /// The creation failed.
    Failed(RusticError),
}

/// A step of a write to the cache.
#[derive(Debug)]
pub enum WriteStep {
    /// Create the directory `path`.
    CreateDirs {
        /// The directory.
        path: String,
    },
    /// Write the content to the file `path`, which may exist.
    WriteTemp {
        /// The file.
        path: String,
    },
    /// Remove the file `path`. The outcome has no effect.
    RemoveTemp {
        /// The file.
        path: String,
        /// The error of the write.
        err: RusticError,
    },
    /// Move the file `from` to the path `to`.
    Move {
        /// The path of the file.
        from: String,
        /// The new path of the file.
        to: String,
    },
    /// The file is in the cache.
    Done,
    /// The write failed.
    Failed(RusticError),
}

/// A step of a read of a part of a file of the cache.
#[derive(Debug)]
pub enum PartStep {
    /// Open the file `path`.
    Open {
        /// The file.
        path: String,
    },
    /// Read the size of the open file.
    Size,
    /// Move to the position `offset` of the open file.
    Seek {
        /// The position.
        offset: u32,
    },
    /// Read exactly `length` bytes of the open file.
    Read {
        /// The number of bytes.
        length: u32,
    },
    /// The read is complete. A cache without the file gives `None`.
    Done(RusticResult<Option<Bytes>>),
}

/// The outcome of a step of a read of a part of a file.
#[derive(Debug)]
pub enum PartOutcome {
    /// The step succeeded, and it gives nothing.
    Done,
    /// The file does not exist.
    NotFound,
    /// The file has this size.
    Size(u64),
    /// The file gave these bytes.
    Data(Vec<u8>),
    /// The step failed.
    Failed(String),
}

/// An entry of a walk through the directory of a file type.
#[derive(Debug)]
pub struct WalkEntry {
    /// Whether the entry is a regular file.
    pub is_file: bool,
    /// The name of the entry, or `None` if it is not valid text.
    pub name: Option<String>,
    /// The size of the entry, or `None` if it cannot be read.
    pub size: Option<u64>,
}

impl WalkEntry {
    /// The file that the entry is, if it is a file of the cache.
    pub open spec fn is_cached_file(&self, id: Id) -> bool {
        &&& self.is_file
        &&& self.name is Some
        &&& id::is_hex_name(self.name->Some_0@)
        &&& id.hex_digits() == self.name->Some_0@
    }

    /// The size of the entry. An unknown size and a size of 4 GiB or more count as 0.
    pub open spec fn listed_size(&self) -> u32 {
        match self.size {
            Some(size) => if size <= u32::MAX {
                size as u32
            } else {
                0
            },
            None => 0,
        }
    }

    /// Gives the ID and the size of the entry, if it is a file of the cache.
    ///
    /// The name of a file of the cache has 64 characters, which are hexadecimal digits.
    pub fn cached_file(&self) -> (r: Option<(Id, u32)>)
        ensures
            match r {
                Some(file) => self.is_cached_file(file.0) && file.1 == self.listed_size(),
                None => forall|id: Id| !self.is_cached_file(id),
            },
    {
        if !self.is_file {
            return None;
        }
        let id = match &self.name {
            Some(name) => match Id::from_hex(name.as_str()) {
                Some(id) => id,
                None => {
                    return None;
                },
            },
            None => {
                return None;
            },
        };
        let size: u32 = match self.size {
            Some(size) => if size <= 0xffff_ffff {
                size as u32
            } else {
                0
            },
            None => 0,
        };
        Some((id, size))
    }
}

/// An error of a walk through the directory of a file type.
#[derive(Debug)]
pub struct WalkError {
    /// The number of directories between the directory of the walk and the place of the error.
    pub depth: usize,
    /// Whether the error is that a directory or a file does not exist.
    pub not_found: bool,
    /// The message of the error.
    pub message: String,
}

/// What a walk through the directory of a file type gives.
#[derive(Debug)]
pub enum WalkItem {
    /// An entry.
    Entry(WalkEntry),
    /// An error.
    Error(WalkError),
}

impl WalkItem {
    /// Whether the item is a regular file.
    pub open spec fn is_regular(&self) -> bool {
        self matches WalkItem::Entry(entry) && entry.is_file
    }

    /// Whether the item is the file `id` of the cache.
    pub open spec fn is_cached_file(&self, id: Id) -> bool {
        self matches WalkItem::Entry(entry) && entry.is_cached_file(id)
    }

    /// The size of the item.
    pub open spec fn listed_size(&self) -> u32 {
        match self {
            WalkItem::Entry(entry) => entry.listed_size(),
            WalkItem::Error(_) => 0,
        }
    }

    /// Whether the item fails the walk. A cache that holds no file of the type has no directory for
    /// them, so the walk of a missing directory gives no files, and does not fail.
    pub open spec fn fails(&self) -> bool {
        self matches WalkItem::Error(err) && !(err.depth == 0 && err.not_found)
    }

    /// Gives the ID and the size of the item, if it is a file of the cache.
    fn cached_file(&self) -> (r: Option<(Id, u32)>)
        ensures
            match r {
                Some(file) => self.is_cached_file(file.0) && file.1 == self.listed_size(),
                None => forall|id: Id| !self.is_cached_file(id),
            },
    {
        match self {
            WalkItem::Entry(entry) => entry.cached_file(),
            WalkItem::Error(_) => None,
        }
    }
}

/// Whether `failed` is the first item of a walk that fails it.
pub open spec fn is_first_failure(walk: Seq<WalkItem>, failed: int) -> bool {
    &&& 0 <= failed < walk.len()
    &&& walk[failed].fails()
    &&& forall|i: int| 0 <= i < failed ==> !(#[trigger] walk[i]).fails()
}

/// Whether the last of the first `n` items of a walk that are the file `id` has the size `size`.
pub open spec fn walk_lists(walk: Seq<WalkItem>, n: int, id: Id, size: u32) -> bool
    decreases n,
{
    0 < n <= walk.len() && if walk[n - 1].is_cached_file(id) {
        size == walk[n - 1].listed_size()
    } else {
        walk_lists(walk, n - 1, id, size)
    }
}

/// Whether `list` holds each file of the cache that `walk` gives, with its size.
pub open spec fn is_walk_listing(walk: Seq<WalkItem>, list: Map<Id, u32>) -> bool {
    &&& forall|id: Id| #[trigger]
        list.contains_key(id) <==> exists|i: int|
            0 <= i < walk.len() && #[trigger] walk[i].is_cached_file(id)
    &&& forall|id: Id| #[trigger]
        list.contains_key(id) ==> walk_lists(walk, walk.len() as int, id, list[id])
}

/// The size of the first file with the ID `id` of the listing `list`.
pub open spec fn first_size(list: Seq<(Id, u32)>, id: Id) -> Option<u32>
    decreases list.len(),
{
    if list.len() == 0 {
        None
    } else if list[0].0 == id {
        Some(list[0].1)
    } else {
        first_size(list.drop_first(), id)
    }
}

/// Whether the cache holds the file `id` although the listing `list` of the backend does not have
/// it, or has it with another size.
pub open spec fn is_stale(cached: Map<Id, u32>, list: Seq<(Id, u32)>, id: Id) -> bool {
    cached.contains_key(id) && first_size(list, id) != Some(cached[id])
}

/// A cache of the files of one repository in a directory.
#[derive(Debug)]
pub struct Cache {
    path: String,
}

impl Clone for Cache {
    fn clone(&self) -> (r: Self)
        ensures
            r.location_text() == self.location_text(),
    {
        Cache { path: self.path.clone() }
    }
}

impl Cache {
    /// The directory of the cache.
    pub closed spec fn location_text(&self) -> Seq<char> {
        self.path@
    }

    /// The directory for the files of the type `tpe`.
    pub open spec fn type_text(&self, tpe: FileType) -> Seq<char> {
        paths::below(self.location_text(), tpe.dirname_text())
    }

    /// The directory of the file `id`.
    pub open spec fn dir_text(&self, tpe: FileType, id: Id) -> Seq<char> {
        paths::below(self.type_text(tpe), id.hex_digits().take(2))
    }

    /// The path of the file `id`.
    pub open spec fn path_text(&self, tpe: FileType, id: Id) -> Seq<char> {
        paths::below(self.dir_text(tpe, id), id.hex_digits())
    }

    /// The path of the file `id` while a write has not completed it.
    pub open spec fn temp_text(&self, tpe: FileType, id: Id) -> Seq<char> {
        paths::below(self.dir_text(tpe, id), id.hex_digits() + TEMP_SUFFIX@)
    }

    /// Gives the directory of all caches.
    ///
    /// This is `path`, or else a directory below the default directory for caches.
    ///
    /// # Errors
    ///
    /// * If there is no `path`, and the system has no default directory for caches.
    pub fn root(path: Option<String>, default_dir: Option<String>) -> (r: RusticResult<String>)
        ensures
            match (path, default_dir) {
                (Some(path), _) => r is Ok && r->Ok_0@ == path@,
                (None, Some(dir)) => r is Ok && r->Ok_0@ == paths::below(dir@, CACHE_DIR_NAME@),
                (None, None) => r == Err::<String, RusticError>(RusticError::NoCacheDirectory),
            },
    {
        match path {
            Some(path) => Ok(path),
            None => match default_dir {
                Some(dir) => Ok(paths::join(dir.as_str(), CACHE_DIR_NAME)),
                None => Err(RusticError::NoCacheDirectory),
            },
        }
    }

    /// Gives the first step of the creation of the cache of the repository `id`.
    ///
    /// # Arguments
    ///
    /// * `path` - The directory of all caches
    /// * `default_dir` - The default directory for caches, which counts if there is no `path`
    pub fn new(path: Option<String>, default_dir: Option<String>) -> (r: NewStep)
        ensures
            match (path, default_dir) {
                (Some(path), _) => r matches NewStep::CreateRoot { path: p } && p@ == path@,
                (None, Some(dir)) => r matches NewStep::CreateRoot { path: p } && p@
                    == paths::below(dir@, CACHE_DIR_NAME@),
                (None, None) => r == NewStep::Failed(RusticError::NoCacheDirectory),
            },
    {
        match Self::root(path, default_dir) {
            Ok(path) => NewStep::CreateRoot { path },
            Err(err) => NewStep::Failed(err),
        }
    }

    /// Whether `next` is the step after `step` of the creation of the cache of the repository `id`.
    pub open spec fn new_follows(id: Id, step: NewStep, outcome: Outcome, next: NewStep) -> bool {
        match (step, outcome) {
            (NewStep::CreateRoot { path }, Outcome::Done) => next matches NewStep::EnsureTag {
                path: p,
            } && p@ == path@,
            (NewStep::EnsureTag { path }, Outcome::Done) => next matches NewStep::CreateRepository {
                path: p,
            } && p@ == paths::below(path@, id.hex_digits()),
            (NewStep::CreateRepository { path }, Outcome::Done) => next matches NewStep::Done(cache)
                && cache.location_text() == path@,
            (NewStep::CreateRoot { path }, Outcome::OpenFailed(source) | Outcome::Failed(source)) =>
                next matches NewStep::Failed(err) && is_step_error(
                    err,
                    CacheStep::CreateRoot,
                    path@,
                    source@,
                ),
            (NewStep::EnsureTag { path }, Outcome::OpenFailed(source) | Outcome::Failed(source)) =>
                next matches NewStep::Failed(err) && is_step_error(
                    err,
                    CacheStep::EnsureTag,
                    path@,
                    source@,
                ),
            (
                NewStep::CreateRepository { path },
                Outcome::OpenFailed(source) | Outcome::Failed(source),
            ) => next matches NewStep::Failed(err) && is_step_error(
                err,
                CacheStep::CreateRepository { id },
                path@,
                source@,
            ),
            (NewStep::Done(cache), _) => next == NewStep::Done(cache),
            (NewStep::Failed(err), _) => next == NewStep::Failed(err),
        }
    }

    /// Gives the step after `step` of the creation of the cache of the repository `id`.
    pub fn new_next(id: Id, step: NewStep, outcome: Outcome) -> (r: NewStep)
        ensures
            Self::new_follows(id, step, outcome, r),
    {
        let failure = match outcome {
            Outcome::Done => None,
            Outcome::OpenFailed(source) | Outcome::Failed(source) => Some(source),
        };
        match step {
            NewStep::CreateRoot { path } => match failure {
                None => NewStep::EnsureTag { path },
                Some(source) => NewStep::Failed(
                    RusticError::CacheFile { step: CacheStep::CreateRoot, path, source },
                ),
            },
            NewStep::EnsureTag { path } => match failure {
                None => NewStep::CreateRepository {
                    path: paths::join(path.as_str(), id.to_hex().as_str()),
                },
                Some(source) => NewStep::Failed(
                    RusticError::CacheFile { step: CacheStep::EnsureTag, path, source },
                ),
            },
            NewStep::CreateRepository { path } => match failure {
                None => NewStep::Done(Cache { path }),
                Some(source) => NewStep::Failed(
                    RusticError::CacheFile { step: CacheStep::CreateRepository { id }, path, source },
                ),
            },
            NewStep::Done(cache) => NewStep::Done(cache),
            NewStep::Failed(err) => NewStep::Failed(err),
        }
    }

    /// Gives the directory of the cache.
    pub fn location(&self) -> (r: &str)
        ensures
            r@ == self.location_text(),
    {
        self.path.as_str()
    }

    /// Gives the directory for the files of the type `tpe`.
    pub fn type_dir(&self, tpe: FileType) -> (r: String)
        ensures
            r@ == self.type_text(tpe),
    {
        paths::join(self.path.as_str(), tpe.dirname())
    }

    /// Gives the directory of the file `id`.
    pub fn dir(&self, tpe: FileType, id: &Id) -> (r: String)
        ensures
            r@ == self.dir_text(tpe, *id),
    {
        paths::join(self.type_dir(tpe).as_str(), id.hex_prefix().as_str())
    }

    /// Gives the path of the file `id`.
    pub fn path(&self, tpe: FileType, id: &Id) -> (r: String)
        ensures
            r@ == self.path_text(tpe, *id),
    {
        paths::join(self.dir(tpe, id).as_str(), id.to_hex().as_str())
    }

    /// Gives the path of the file `id` while a write has not completed it.
    pub fn temp_path(&self, tpe: FileType, id: &Id) -> (r: String)
        ensures
            r@ == self.temp_text(tpe, *id),
    {
        let mut name = id.to_hex();
        name.append(TEMP_SUFFIX);
        paths::join(self.dir(tpe, id).as_str(), name.as_str())
    }

    /// Gives the files of the type `tpe` that the cache holds, with their sizes.
    ///
    /// Only a regular file whose name is 64 hexadecimal digits in lower case is a file of the
    /// cache.
    ///
    /// # Arguments
    ///
    /// * `tpe` - The type of the files
    /// * `walk` - What a walk through the directory [`Self::type_dir`] gave
    ///
    /// # Errors
    ///
    /// * If the directory could not be read. A missing directory gives no files, and no error.
    pub fn list_with_size(&self, tpe: FileType, walk: &Vec<WalkItem>) -> (r: RusticResult<
        SortedMap<Id, u32>,
    >)
        ensures
            match r {
                Ok(list) => {
                    &&& forall|i: int| 0 <= i < walk.len() ==> !(#[trigger] walk[i]).fails()
                    &&& is_walk_listing(walk@, list@)
                },
                Err(err) => exists|failed: int| #[trigger]
                    is_first_failure(walk@, failed) && is_step_error(
                        err,
                        CacheStep::List,
                        self.type_text(tpe),
                        walk[failed]->Error_0.message@,
                    ),
            },
    {
        let n: usize = walk.len();
        for i in 0..n
            invariant
                n == walk.len(),
                forall|j: int| 0 <= j < i ==> !(#[trigger] walk[j]).fails(),
        {
            match &walk[i] {
                WalkItem::Error(err) => {
                    if !(err.depth == 0 && err.not_found) {
                        assert(is_first_failure(walk@, i as int));
                        return Err(
                            RusticError::CacheFile {
                                step: CacheStep::List,
                                path: self.type_dir(tpe),
                                source: text::owned(err.message.as_str()),
                            },
                        );
                    }
                },
                WalkItem::Entry(_) => {},
            }
        }
        Ok(Self::collect_files(walk))
    }

    /// Gives the files of the cache of `entries` with their sizes.
    fn collect_files(entries: &Vec<WalkItem>) -> (r: SortedMap<Id, u32>)
        ensures
            is_walk_listing(entries@, r@),
    {
        let mut list: SortedMap<Id, u32> = SortedMap::new();
        let n: usize = entries.len();
        for i in 0..n
            invariant
                n == entries.len(),
                forall|id: Id| #[trigger]
                    list@.contains_key(id) <==> exists|j: int|
                        0 <= j < i && #[trigger] entries[j].is_cached_file(id),
                forall|id: Id| #[trigger]
                    list@.contains_key(id) ==> walk_lists(entries@, i as int, id, list@[id]),
        {
            let ghost before = list@;
            match entries[i].cached_file() {
                Some((file, size)) => {
                    let _ = list.insert(file, size);
                    proof {
                        assert forall|id: Id| #[trigger]
                            list@.contains_key(id) <==> exists|j: int|
                                0 <= j < i + 1 && #[trigger] entries[j].is_cached_file(id) by {
                            if entries[i as int].is_cached_file(id) {
                                id::law_hex_identifies(id, file);
                            }
                            if before.contains_key(id) {
                                let j = choose|j: int|
                                    0 <= j < i && #[trigger] entries[j].is_cached_file(id);
                                assert(entries[j].is_cached_file(id));
                            }
                            if id == file {
                                assert(entries[i as int].is_cached_file(id));
                            }
                        }
                        assert forall|id: Id| #[trigger] list@.contains_key(id) implies walk_lists(
                            entries@,
                            i + 1,
                            id,
                            list@[id],
                        ) by {
                            if entries[i as int].is_cached_file(id) {
                                id::law_hex_identifies(id, file);
                            } else {
                                assert(before.contains_key(id));
                            }
                        }
                    }
                },
                None => {
                    proof {
                        assert forall|id: Id| #[trigger]
                            list@.contains_key(id) <==> exists|j: int|
                                0 <= j < i + 1 && #[trigger] entries[j].is_cached_file(id) by {
                            if list@.contains_key(id) {
                                let j = choose|j: int|
                                    0 <= j < i && #[trigger] entries[j].is_cached_file(id);
                                assert(entries[j].is_cached_file(id));
                            }
                        }
                    }
                },
            }
        }
        list
    }

    /// Gives the files to remove from the cache: the cache holds them although the listing `list`
    /// of the backend does not have them, or has them with another size.
    ///
    /// # Arguments
    ///
    /// * `cached` - The files of the cache with their sizes, as [`Self::list_with_size`] gives them
    /// * `list` - The files of the backend with their sizes
    ///
    /// # Errors
    ///
    /// * If the directory of the cache could not be read.
    pub fn remove_not_in_list(
        cached: RusticResult<SortedMap<Id, u32>>,
        list: &Vec<(Id, u32)>,
    ) -> (r: RusticResult<Vec<Id>>)
        ensures
            match cached {
                Err(err) => r == Err::<Vec<Id>, RusticError>(err),
                Ok(cached) => {
                    &&& r is Ok
                    &&& r->Ok_0@.no_duplicates()
                    &&& forall|id: Id| #[trigger]
                        r->Ok_0@.contains(id) <==> is_stale(cached@, list@, id)
                },
            },
    {
        match cached {
            Ok(cached) => Ok(Self::stale_files(cached, list)),
            Err(err) => Err(err),
        }
    }

    /// Gives the files of `cached` that `list` does not have, or has with another size.
    fn stale_files(cached: SortedMap<Id, u32>, list: &Vec<(Id, u32)>) -> (r: Vec<Id>)
        ensures
            r@.no_duplicates(),
            forall|id: Id| #[trigger] r@.contains(id) <==> is_stale(cached@, list@, id),
    {
        let mut rest = cached;
        let ghost all = cached@;
        let mut stale: Vec<Id> = Vec::new();
        let n: usize = list.len();
        assert(list@.take(0).len() == 0);
        for i in 0..n
            invariant
                n == list.len(),
                stale@.no_duplicates(),
                forall|id: Id| #[trigger]
                    rest@.contains_key(id) <==> all.contains_key(id) && first_size(
                        list@.take(i as int),
                        id,
                    ) is None,
                forall|id: Id| #[trigger] rest@.contains_key(id) ==> rest@[id] == all[id],
                forall|id: Id| #[trigger]
                    stale@.contains(id) <==> all.contains_key(id) && first_size(
                        list@.take(i as int),
                        id,
                    ) is Some && is_stale(all, list@.take(i as int), id),
        {
            let (id, size) = list[i];
            let ghost done = stale@;
            let ghost left = rest@;
            let ghost taken = list@.take(i as int);
            proof {
                assert(list@.take(i + 1) =~= taken.push((id, size)));
                assert forall|x: Id| #[trigger] first_size(list@.take(i + 1), x) == if first_size(
                    taken,
                    x,
                ) is Some {
                    first_size(taken, x)
                } else if x == id {
                    Some(size)
                } else {
                    None
                } by {
                    lemma_first_size_push(taken, (id, size), x);
                }
            }
            match rest.remove(&id) {
                Some(cached_size) => {
                    if cached_size != size {
                        assert(!done.contains(id));
                        stale.push(id);
                        proof {
                            assert forall|x: Id| #[trigger] stale@.contains(x) <==> done.contains(x)
                                || x == id by {
                                if done.contains(x) {
                                    let j = choose|j: int| 0 <= j < done.len() && done[j] == x;
                                    assert(stale@[j] == x);
                                }
                                assert(stale@[done.len() as int] == id);
                            }
                        }
                    }
                },
                None => {},
            }
        }
        assert(list@.take(n as int) =~= list@);
        rest.reveal_order();
        let ghost listed = stale@;
        let m: usize = rest.len();
        for k in 0..m
            invariant
                m == rest.sequence().len(),
                sorted::ascending(rest.sequence()),
                forall|j: int|
                    0 <= j < m ==> rest@.contains_key((#[trigger] rest.sequence()[j]).0),
                forall|id: Id| #[trigger] rest@.contains_key(id) ==> !listed.contains(id),
                stale@.no_duplicates(),
                stale@.len() == listed.len() + k,
                forall|j: int| 0 <= j < listed.len() ==> stale@[j] == listed[j],
                forall|j: int|
                    0 <= j < k ==> stale@[listed.len() + j] == (#[trigger] rest.sequence()[j]).0,
        {
            let (id, _) = rest.entry(k);
            proof {
                assert(rest@.contains_key(rest.sequence()[k as int].0));
                if stale@.contains(*id) {
                    let j = choose|j: int| 0 <= j < stale@.len() && stale@[j] == *id;
                    if j < listed.len() {
                        assert(listed.contains(listed[j]));
                    } else {
                        let p = j - listed.len();
                        assert(rest.sequence()[p].0 == *id);
                        assert(Id::before(rest.sequence()[p].0, rest.sequence()[k as int].0));
                    }
                }
            }
            stale.push(*id);
        }
        proof {
            assert forall|id: Id| #[trigger] stale@.contains(id) <==> is_stale(all, list@, id) by {
                if stale@.contains(id) {
                    let j = choose|j: int| 0 <= j < stale@.len() && stale@[j] == id;
                    if j < listed.len() {
                        assert(listed.contains(listed[j]));
                    } else {
                        let p = j - listed.len();
                        assert(rest@.contains_key(rest.sequence()[p].0));
                    }
                }
                if is_stale(all, list@, id) {
                    if first_size(list@, id) is Some {
                        assert(listed.contains(id));
                        let j = choose|j: int| 0 <= j < listed.len() && listed[j] == id;
                        assert(stale@[j] == id);
                    } else {
                        assert(rest@.contains_key(id));
                        let p = choose|p: int| sorted::key_at(rest.sequence(), id, p);
                        assert(sorted::key_at(rest.sequence(), id, p));
                        assert(stale@[listed.len() + p] == id);
                    }
                }
            }
        }
        stale
    }

    /// Gives what a read of the full file `id` means.
    ///
    /// # Arguments
    ///
    /// * `read` - The outcome of a read of the file at [`Self::path`]
    ///
    /// # Returns
    ///
    /// The content, or `None` if the cache does not hold the file.
    pub fn read_full(&self, tpe: FileType, id: &Id, read: Found<Vec<u8>>) -> (r: RusticResult<
        Option<Bytes>,
    >)
        ensures
            match read {
                Found::Done(data) => r matches Ok(Some(content)) && buffer::bytes_seq(content)
                    == data@,
                Found::NotFound => r == Ok::<Option<Bytes>, RusticError>(None),
                Found::Failed(source) => r matches Err(err) && is_step_error(
                    err,
                    CacheStep::ReadFull,
                    self.path_text(tpe, *id),
                    source@,
                ),
            },
    {
        match read {
            Found::Done(data) => Ok(Some(buffer::from_vec(data))),
            Found::NotFound => Ok(None),
            Found::Failed(source) => Err(
                RusticError::CacheFile {
                    step: CacheStep::ReadFull,
                    path: self.path(tpe, id),
                    source,
                },
            ),
        }
    }

    /// Gives the first step of a read of a part of the file `id`.
    pub fn read_partial(&self, tpe: FileType, id: &Id) -> (r: PartStep)
        ensures
            r matches PartStep::Open { path } && path@ == self.path_text(tpe, *id),
    {
        PartStep::Open { path: self.path(tpe, id) }
    }

    /// Whether `next` is the step after `step` of a read of `length` bytes at the position
    /// `offset` of the file `id`.
    ///
    /// An outcome that the step cannot have gives the step again.
    pub open spec fn read_partial_follows(
        &self,
        tpe: FileType,
        id: Id,
        offset: u32,
        length: u32,
        step: PartStep,
        outcome: PartOutcome,
        next: PartStep,
    ) -> bool {
        let path = self.path_text(tpe, id);
        match (step, outcome) {
            (PartStep::Open { .. }, PartOutcome::Done) => next == PartStep::Size,
            (PartStep::Open { .. }, PartOutcome::NotFound) => next == PartStep::Done(Ok(None)),
            (PartStep::Open { .. }, PartOutcome::Failed(source)) => next matches PartStep::Done(
                Err(err),
            ) && is_step_error(err, CacheStep::Open, path, source@),
            (PartStep::Size, PartOutcome::Size(file_length)) => if offset + length <= file_length {
                next == PartStep::Seek { offset }
            } else {
                next matches PartStep::Done(Err(err))
                    && err matches RusticError::ShortCacheFile {
                    path: p,
                    file_length: f,
                    offset: o,
                    length: l,
                } && p@ == path && f == file_length && o == offset && l == length
            },
            (PartStep::Size, PartOutcome::Failed(source)) => next matches PartStep::Done(Err(err))
                && is_step_error(err, CacheStep::Size, path, source@),
            (PartStep::Seek { .. }, PartOutcome::Done) => next == PartStep::Read { length },
            (PartStep::Seek { .. }, PartOutcome::Failed(source)) => next matches PartStep::Done(
                Err(err),
            ) && is_step_error(err, CacheStep::Seek { offset }, path, source@),
            (PartStep::Read { .. }, PartOutcome::Data(data)) => next matches PartStep::Done(
                Ok(Some(part)),
            ) && buffer::bytes_seq(part) == data@,
            (PartStep::Read { .. }, PartOutcome::Failed(source)) => next matches PartStep::Done(
                Err(err),
            ) && is_step_error(err, CacheStep::ReadPart { offset }, path, source@),
            (step, _) => next == step,
        }
    }

    /// Gives the step after `step` of a read of `length` bytes at the position `offset` of the
    /// file `id`.
    ///
    /// The file must hold the full range. Without this check, the caller would make a buffer for
    /// a length that the repository gives, and only then find the end of the file.
    pub fn read_partial_next(
        &self,
        tpe: FileType,
        id: &Id,
        offset: u32,
        length: u32,
        step: PartStep,
        outcome: PartOutcome,
    ) -> (r: PartStep)
        ensures
            self.read_partial_follows(tpe, *id, offset, length, step, outcome, r),
    {
        let failed = match (&step, outcome) {
            (PartStep::Open { .. }, PartOutcome::Done) => {
                return PartStep::Size;
            },
            (PartStep::Open { .. }, PartOutcome::NotFound) => {
                return PartStep::Done(Ok(None));
            },
            (PartStep::Open { .. }, PartOutcome::Failed(source)) => (CacheStep::Open, source),
            (PartStep::Size, PartOutcome::Size(file_length)) => {
                let end: u64 = offset as u64 + length as u64;
                if end > file_length {
                    return PartStep::Done(
                        Err(
                            RusticError::ShortCacheFile {
                                path: self.path(tpe, id),
                                file_length,
                                offset,
                                length,
                            },
                        ),
                    );
                }
                return PartStep::Seek { offset };
            },
            (PartStep::Size, PartOutcome::Failed(source)) => (CacheStep::Size, source),
            (PartStep::Seek { .. }, PartOutcome::Done) => {
                return PartStep::Read { length };
            },
            (PartStep::Seek { .. }, PartOutcome::Failed(source)) => (
                CacheStep::Seek { offset },
                source,
            ),
            (PartStep::Read { .. }, PartOutcome::Data(data)) => {
                return PartStep::Done(Ok(Some(buffer::from_vec(data))));
            },
            (PartStep::Read { .. }, PartOutcome::Failed(source)) => (
                CacheStep::ReadPart { offset },
                source,
            ),
            (_, _) => {
                return step;
            },
        };
        PartStep::Done(
            Err(RusticError::CacheFile { step: failed.0, path: self.path(tpe, id), source: failed.1 }),
        )
    }

    /// Gives the first step of a write of the file `id`.
    pub fn write_bytes(&self, tpe: FileType, id: &Id) -> (r: WriteStep)
        ensures
            r matches WriteStep::CreateDirs { path } && path@ == self.dir_text(tpe, *id),
    {
        WriteStep::CreateDirs { path: self.dir(tpe, id) }
    }

    /// Whether `next` is the step after `step` of a write of the file `id`.
    pub open spec fn write_follows(
        &self,
        tpe: FileType,
        id: Id,
        step: WriteStep,
        outcome: Outcome,
        next: WriteStep,
    ) -> bool {
        match (step, outcome) {
            (WriteStep::CreateDirs { .. }, Outcome::Done) => next matches WriteStep::WriteTemp {
                path,
            } && path@ == self.temp_text(tpe, id),
            (WriteStep::CreateDirs { .. }, Outcome::OpenFailed(source) | Outcome::Failed(source)) =>
                next matches WriteStep::Failed(err) && is_step_error(
                    err,
                    CacheStep::CreateDirs,
                    self.dir_text(tpe, id),
                    source@,
                ),
            (WriteStep::WriteTemp { .. }, Outcome::Done) => next matches WriteStep::Move {
                from,
                to,
            } && from@ == self.temp_text(tpe, id) && to@ == self.path_text(tpe, id),
            (WriteStep::WriteTemp { .. }, Outcome::OpenFailed(source)) =>
                next matches WriteStep::RemoveTemp { path, err } && path@ == self.temp_text(tpe, id)
                    && is_step_error(
                    err,
                    CacheStep::OpenForWrite,
                    self.temp_text(tpe, id),
                    source@,
                ),
            (WriteStep::WriteTemp { .. }, Outcome::Failed(source)) =>
                next matches WriteStep::RemoveTemp { path, err } && path@ == self.temp_text(tpe, id)
                    && is_step_error(err, CacheStep::Write, self.temp_text(tpe, id), source@),
            (WriteStep::RemoveTemp { err, .. }, _) => next == WriteStep::Failed(err),
            (WriteStep::Move { .. }, Outcome::Done) => next == WriteStep::Done,
            (WriteStep::Move { .. }, Outcome::OpenFailed(source) | Outcome::Failed(source)) =>
                next matches WriteStep::Failed(err) && err matches RusticError::CacheFile {
                    step: CacheStep::Move { path_tmp },
                    path,
                    source: s,
                } && path_tmp@ == self.temp_text(tpe, id) && path@ == self.path_text(tpe, id) && s@
                    == source@,
            (WriteStep::Done, _) => next == WriteStep::Done,
            (WriteStep::Failed(err), _) => next == WriteStep::Failed(err),
        }
    }

    /// Gives the step after `step` of a write of the file `id`.
    ///
    /// The write goes to a temporary file, which then moves to the path of the file. So the cache
    /// never has an incomplete file. A failed write removes its temporary file.
    pub fn write_bytes_next(
        &self,
        tpe: FileType,
        id: &Id,
        step: WriteStep,
        outcome: Outcome,
    ) -> (r: WriteStep)
        ensures
            self.write_follows(tpe, *id, step, outcome, r),
    {
        match step {
            WriteStep::CreateDirs { .. } => match outcome {
                Outcome::Done => WriteStep::WriteTemp { path: self.temp_path(tpe, id) },
                Outcome::OpenFailed(source) | Outcome::Failed(source) => WriteStep::Failed(
                    RusticError::CacheFile {
                        step: CacheStep::CreateDirs,
                        path: self.dir(tpe, id),
                        source,
                    },
                ),
            },
            WriteStep::WriteTemp { .. } => {
                let (step, source) = match outcome {
                    Outcome::Done => {
                        return WriteStep::Move {
                            from: self.temp_path(tpe, id),
                            to: self.path(tpe, id),
                        };
                    },
                    Outcome::OpenFailed(source) => (CacheStep::OpenForWrite, source),
                    Outcome::Failed(source) => (CacheStep::Write, source),
                };
                WriteStep::RemoveTemp {
                    path: self.temp_path(tpe, id),
                    err: RusticError::CacheFile { step, path: self.temp_path(tpe, id), source },
                }
            },
            WriteStep::RemoveTemp { err, .. } => WriteStep::Failed(err),
            WriteStep::Move { .. } => match outcome {
                Outcome::Done => WriteStep::Done,
                Outcome::OpenFailed(source) | Outcome::Failed(source) => WriteStep::Failed(
                    RusticError::CacheFile {
                        step: CacheStep::Move { path_tmp: self.temp_path(tpe, id) },
                        path: self.path(tpe, id),
                        source,
                    },
                ),
            },
            WriteStep::Done => WriteStep::Done,
            WriteStep::Failed(err) => WriteStep::Failed(err),
        }
    }

    /// Gives what a removal of the file `id` means.
    ///
    /// # Arguments
    ///
    /// * `removed` - The outcome of a removal of the file at [`Self::path`]
    pub fn remove(&self, tpe: FileType, id: &Id, removed: Outcome) -> (r: RusticResult<()>)
        ensures
            match removed {
                Outcome::Done => r == Ok::<(), RusticError>(()),
                Outcome::OpenFailed(source) | Outcome::Failed(source) => r matches Err(err)
                    && is_step_error(
                    err,
                    CacheStep::Remove,
                    self.path_text(tpe, *id),
                    source@,
                ),
            },
    {
        match removed {
            Outcome::Done => Ok(()),
            Outcome::OpenFailed(source) | Outcome::Failed(source) => Err(
                RusticError::CacheFile {
                    step: CacheStep::Remove,
                    path: self.path(tpe, id),
                    source,
                },
            ),
        }
    }
}

proof fn lemma_first_size_push(list: Seq<(Id, u32)>, file: (Id, u32), id: Id)
    ensures
        first_size(list.push(file), id) == if first_size(list, id) is Some {
            first_size(list, id)
        } else if file.0 == id {
            Some(file.1)
        } else {
            None
        },
    decreases list.len(),
{
    let longer = list.push(file);
    if list.len() == 0 {
        reveal_with_fuel(first_size, 2);
        assert(longer.drop_first().len() == 0);
    } else {
        assert(longer.drop_first() =~= list.drop_first().push(file));
        lemma_first_size_push(list.drop_first(), file, id);
    }
}

proof fn lemma_suffix_is_short()
    ensures
        TEMP_SUFFIX@.len() == 5,
        TEMP_SUFFIX@.last() == '-',
{
    reveal_strlit("-tmp-");
}

proof fn lemma_dirnames_differ(a: FileType, b: FileType)
    requires
        a.dirname_text() == b.dirname_text(),
    ensures
        a == b,
{
    reveal_strlit("config");
    reveal_strlit("index");
    reveal_strlit("keys");
    reveal_strlit("snapshots");
    reveal_strlit("data");
    assert("config"@.len() == 6 && "index"@.len() == 5 && "keys"@.len() == 4 && "snapshots"@.len() == 9
        && "data"@.len() == 4);
    assert("keys"@[0] == 'k' && "data"@[0] == 'd');
}

/// The cache keeps each file at its own path.
pub proof fn law_paths_identify(cache: Cache, a_tpe: FileType, a: Id, b_tpe: FileType, b: Id)
    requires
        cache.path_text(a_tpe, a) == cache.path_text(b_tpe, b),
    ensures
        a_tpe == b_tpe,
        a == b,
{
    id::law_hex_is_hex_name(a);
    id::law_hex_is_hex_name(b);
    paths::lemma_below_ends(cache.dir_text(a_tpe, a), a.hex_digits());
    paths::lemma_below_ends(cache.dir_text(b_tpe, b), b.hex_digits());
    id::law_hex_identifies(a, b);
    let name = a.hex_digits();
    let prefix = name.take(2);
    let a_dir = cache.dir_text(a_tpe, a);
    let b_dir = cache.dir_text(b_tpe, b);
    lemma_directory(a_dir, b_dir, name);
    lemma_last_of_type(cache, a_tpe);
    lemma_last_of_type(cache, b_tpe);
    lemma_directory(cache.type_text(a_tpe), cache.type_text(b_tpe), prefix);
    paths::lemma_below_identifies(cache.location_text(), a_tpe.dirname_text(), b_tpe.dirname_text());
    lemma_dirnames_differ(a_tpe, b_tpe);
}

/// A directory that does not end in `/` is determined by the path of a file in it.
proof fn lemma_directory(a: Seq<char>, b: Seq<char>, name: Seq<char>)
    requires
        a.len() > 0 && a.last() != '/',
        b.len() > 0 && b.last() != '/',
        paths::below(a, name) == paths::below(b, name),
    ensures
        a == b,
{
    let whole = paths::below(a, name);
    assert(a =~= whole.take(whole.len() - name.len() - 1));
    assert(b =~= whole.take(whole.len() - name.len() - 1));
}

proof fn lemma_last_of_type(cache: Cache, tpe: FileType)
    ensures
        cache.type_text(tpe).len() > 0,
        cache.type_text(tpe).last() != '/',
{
    reveal_strlit("config");
    reveal_strlit("index");
    reveal_strlit("keys");
    reveal_strlit("snapshots");
    reveal_strlit("data");
}

/// The path of an incomplete file is not the path of a file of the cache.
pub proof fn law_temp_is_no_file(cache: Cache, a_tpe: FileType, a: Id, b_tpe: FileType, b: Id)
    ensures
        cache.temp_text(a_tpe, a) != cache.path_text(b_tpe, b),
{
    lemma_suffix_is_short();
    id::law_hex_is_hex_name(b);
    let temp = cache.temp_text(a_tpe, a);
    let path = cache.path_text(b_tpe, b);
    assert(temp.last() == '-');
    assert(path.last() == b.hex_digits().last());
    assert(id::is_hex_digit(path.last()));
}

/// The files of a file system: the content at each path.
pub type Disk = Map<Seq<char>, Seq<u8>>;

/// The files after the operation of a step of a write of `content` succeeded.
pub open spec fn write_effect(disk: Disk, step: WriteStep, content: Seq<u8>) -> Disk {
    match step {
        WriteStep::WriteTemp { path } => disk.insert(path@, content),
        WriteStep::RemoveTemp { path, .. } => disk.remove(path@),
        WriteStep::Move { from, to } => disk.remove(from@).insert(to@, disk[from@]),
        _ => disk,
    }
}

/// A write whose operations all succeed stores the content at the path of the file, and changes no
/// other file of the cache.
pub proof fn law_write_stores(
    cache: Cache,
    tpe: FileType,
    id: Id,
    content: Seq<u8>,
    disk: Disk,
    first: WriteStep,
    second: WriteStep,
    third: WriteStep,
    last: WriteStep,
)
    requires
        first matches WriteStep::CreateDirs { path } && path@ == cache.dir_text(tpe, id),
        cache.write_follows(tpe, id, first, Outcome::Done, second),
        cache.write_follows(tpe, id, second, Outcome::Done, third),
        cache.write_follows(tpe, id, third, Outcome::Done, last),
    ensures
        last == WriteStep::Done,
        ({
            let after = write_effect(
                write_effect(write_effect(disk, first, content), second, content),
                third,
                content,
            );
            &&& after.contains_key(cache.path_text(tpe, id))
            &&& after[cache.path_text(tpe, id)] == content
            &&& !after.contains_key(cache.temp_text(tpe, id))
            &&& forall|other_tpe: FileType, other: Id|
                (other_tpe, other) != (tpe, id) ==> {
                    let path = #[trigger] cache.path_text(other_tpe, other);
                    after.contains_key(path) == disk.contains_key(path) && after[path] == disk[path]
                }
        }),
{
    law_temp_is_no_file(cache, tpe, id, tpe, id);
    assert forall|other_tpe: FileType, other: Id| (other_tpe, other) != (tpe, id) implies {
        let path = #[trigger] cache.path_text(other_tpe, other);
        path != cache.path_text(tpe, id) && path != cache.temp_text(tpe, id)
    } by {
        law_temp_is_no_file(cache, tpe, id, other_tpe, other);
        if cache.path_text(other_tpe, other) == cache.path_text(tpe, id) {
            law_paths_identify(cache, other_tpe, other, tpe, id);
        }
    }
}

/// Whether the path `path` is below the directory `dir`.
pub open spec fn is_below(path: Seq<char>, dir: Seq<char>) -> bool {
    path.len() > dir.len() && path.take(dir.len() as int) == dir && path[dir.len() as int] == '/'
}

/// Whether `name` is the last part of the path `path`.
pub open spec fn is_name_of(name: Seq<char>, path: Seq<char>) -> bool {
    &&& path.len() > name.len()
    &&& path.skip(path.len() - name.len()) == name
    &&& path[path.len() - name.len() - 1] == '/'
    &&& !name.contains('/')
}

/// Whether each file of `disk` in the directory of the type `tpe` that has the name of a file of
/// the cache is at the path of that file.
pub open spec fn is_tidy(cache: Cache, tpe: FileType, disk: Disk) -> bool {
    forall|path: Seq<char>, id: Id|
        disk.contains_key(path) && is_below(path, cache.type_text(tpe)) && #[trigger] is_name_of(
            id.hex_digits(),
            path,
        ) ==> path == cache.path_text(tpe, id)
}

/// Whether `entry` is the file at the path `path` of `disk`.
pub open spec fn is_file_at(disk: Disk, path: Seq<char>, entry: WalkEntry) -> bool {
    &&& disk.contains_key(path)
    &&& entry.name matches Some(name)
    &&& is_name_of(name@, path)
    &&& entry.size matches Some(size)
    &&& size == disk[path].len()
}

/// Whether a walk through the directory `dir` of a file system with the files `disk` gives `walk`,
/// where `at` holds the path of each item.
pub open spec fn walks(
    disk: Disk,
    dir: Seq<char>,
    walk: Seq<WalkItem>,
    at: Seq<Seq<char>>,
) -> bool {
    &&& at.len() == walk.len()
    &&& forall|i: int|
        0 <= i < walk.len() && (#[trigger] walk[i]).is_regular() ==> is_below(at[i], dir)
            && is_file_at(disk, at[i], walk[i]->Entry_0)
    &&& forall|path: Seq<char>| #[trigger]
        disk.contains_key(path) && is_below(path, dir) ==> exists|i: int|
            0 <= i < walk.len() && #[trigger] at[i] == path && walk[i].is_regular()
}

/// The size that a listing gives for a file with `len` bytes.
pub open spec fn listed_len(len: nat) -> u32 {
    if len <= u32::MAX {
        len as u32
    } else {
        0
    }
}

/// A path has one name.
proof fn lemma_one_name(a: Seq<char>, b: Seq<char>, path: Seq<char>)
    requires
        is_name_of(a, path),
        is_name_of(b, path),
    ensures
        a == b,
{
    if a.len() < b.len() {
        let k = b.len() - a.len() - 1;
        assert(b[k] == path[path.len() - b.len() + k]);
        assert(b.contains('/'));
    } else if b.len() < a.len() {
        let k = a.len() - b.len() - 1;
        assert(a[k] == path[path.len() - a.len() + k]);
        assert(a.contains('/'));
    }
}

/// The path of a file of the cache ends in the digits of its ID, below the directory of its type.
proof fn lemma_path_parts(cache: Cache, tpe: FileType, id: Id)
    ensures
        is_below(cache.path_text(tpe, id), cache.type_text(tpe)),
        is_name_of(id.hex_digits(), cache.path_text(tpe, id)),
{
    id::law_hex_is_hex_name(id);
    lemma_last_of_type(cache, tpe);
    let dir = cache.type_text(tpe);
    let name = id.hex_digits();
    let path = cache.path_text(tpe, id);
    assert(id::is_hex_digit(name[1]));
    assert(cache.dir_text(tpe, id).last() == name[1]);
    assert(path =~= dir + seq!['/'] + name.take(2) + seq!['/'] + name);
    assert(path.take(dir.len() as int) =~= dir);
    assert(path.skip(path.len() - name.len()) =~= name);
    if name.contains('/') {
        let k = choose|k: int| 0 <= k < name.len() && name[k] == '/';
        assert(id::is_hex_digit(name[k]));
    }
}

proof fn lemma_walk_lists_one(walk: Seq<WalkItem>, n: int, id: Id, size: u32)
    requires
        walk_lists(walk, n, id, size),
    ensures
        exists|i: int|
            0 <= i < n && (#[trigger] walk[i]).is_cached_file(id) && size == walk[i].listed_size(),
    decreases n,
{
    if walk[n - 1].is_cached_file(id) {
        assert(walk[n - 1].is_cached_file(id));
    } else {
        lemma_walk_lists_one(walk, n - 1, id, size);
        let i = choose|i: int|
            0 <= i < n - 1 && (#[trigger] walk[i]).is_cached_file(id) && size
                == walk[i].listed_size();
        assert(walk[i].is_cached_file(id));
    }
}

/// The listing of a tidy cache holds exactly the files at the paths of the cache, with their sizes.
pub proof fn law_listing_has_the_files(
    cache: Cache,
    tpe: FileType,
    disk: Disk,
    walk: Seq<WalkItem>,
    at: Seq<Seq<char>>,
    list: Map<Id, u32>,
    id: Id,
)
    requires
        is_tidy(cache, tpe, disk),
        walks(disk, cache.type_text(tpe), walk, at),
        is_walk_listing(walk, list),
    ensures
        list.contains_key(id) == disk.contains_key(cache.path_text(tpe, id)),
        list.contains_key(id) ==> list[id] == listed_len(disk[cache.path_text(tpe, id)].len()),
{
    let path = cache.path_text(tpe, id);
    lemma_path_parts(cache, tpe, id);
    assert forall|i: int|
        0 <= i < walk.len() && #[trigger] walk[i].is_cached_file(id) implies disk.contains_key(path)
        && walk[i].listed_size() == listed_len(disk[path].len()) by {
        assert(is_name_of(id.hex_digits(), at[i]));
    }
    if list.contains_key(id) {
        lemma_walk_lists_one(walk, walk.len() as int, id, list[id]);
    }
    if disk.contains_key(path) {
        let i = choose|i: int|
            0 <= i < walk.len() && #[trigger] at[i] == path && walk[i].is_regular();
        let entry = walk[i]->Entry_0;
        assert(is_file_at(disk, at[i], entry));
        lemma_one_name(entry.name->Some_0@, id.hex_digits(), path);
        id::law_hex_is_hex_name(id);
        assert(walk[i].is_cached_file(id));
    }
}

/// After a write whose operations all succeed, a read gives the content, and the listing is the
/// listing before with the length of the content for the file. So no temporary file shows up in it.
pub proof fn law_write_updates_listing(
    cache: Cache,
    tpe: FileType,
    id: Id,
    content: Seq<u8>,
    disk: Disk,
    after: Disk,
    steps: (WriteStep, WriteStep, WriteStep, WriteStep),
    walk: Seq<WalkItem>,
    at: Seq<Seq<char>>,
    list: Map<Id, u32>,
    new_walk: Seq<WalkItem>,
    new_at: Seq<Seq<char>>,
    new_list: Map<Id, u32>,
    data: Vec<u8>,
    r: RusticResult<Option<Bytes>>,
)
    requires
        call_ensures(Cache::write_bytes, (&cache, tpe, &id), steps.0),
        cache.write_follows(tpe, id, steps.0, Outcome::Done, steps.1),
        cache.write_follows(tpe, id, steps.1, Outcome::Done, steps.2),
        cache.write_follows(tpe, id, steps.2, Outcome::Done, steps.3),
        after == write_effect(
            write_effect(write_effect(disk, steps.0, content), steps.1, content),
            steps.2,
            content,
        ),
        is_tidy(cache, tpe, disk),
        walks(disk, cache.type_text(tpe), walk, at),
        is_walk_listing(walk, list),
        walks(after, cache.type_text(tpe), new_walk, new_at),
        is_walk_listing(new_walk, new_list),
        data@ == after[cache.path_text(tpe, id)],
        call_ensures(Cache::read_full, (&cache, tpe, &id, Found::Done(data)), r),
    ensures
        is_tidy(cache, tpe, after),
        new_list == list.insert(id, listed_len(content.len())),
        r matches Ok(Some(read)) && buffer::bytes_seq(read) == content,
{
    law_write_stores(cache, tpe, id, content, disk, steps.0, steps.1, steps.2, steps.3);
    let path = cache.path_text(tpe, id);
    assert forall|p: Seq<char>, x: Id|
        after.contains_key(p) && is_below(p, cache.type_text(tpe)) && #[trigger] is_name_of(
            x.hex_digits(),
            p,
        ) implies p == cache.path_text(tpe, x) by {
        if p == path {
            lemma_path_parts(cache, tpe, id);
            lemma_one_name(x.hex_digits(), id.hex_digits(), p);
            id::law_hex_identifies(x, id);
        } else if p == cache.temp_text(tpe, id) {
            assert(false);
        } else {
            assert(disk.contains_key(p));
        }
    }
    assert forall|x: Id| #[trigger] new_list.contains_key(x) == list.insert(
        id,
        listed_len(content.len()),
    ).contains_key(x) && (new_list.contains_key(x) ==> new_list[x] == list.insert(
        id,
        listed_len(content.len()),
    )[x]) by {
        law_listing_has_the_files(cache, tpe, disk, walk, at, list, x);
        law_listing_has_the_files(cache, tpe, after, new_walk, new_at, new_list, x);
        if x != id {
            let other = cache.path_text(tpe, x);
            assert(after.contains_key(other) == disk.contains_key(other));
        }
    }
    assert(new_list =~= list.insert(id, listed_len(content.len())));
}

/// The file of a write that is not complete is no file of the cache in a walk.
pub proof fn law_temp_is_not_listed(id: Id, entry: WalkEntry, other: Id)
    requires
        entry.name matches Some(name) && name@ == id.hex_digits() + TEMP_SUFFIX@,
    ensures
        !entry.is_cached_file(other),
{
    lemma_suffix_is_short();
    id::law_hex_is_hex_name(id);
}

/// A write that fails leaves each file of the cache as it was, whatever the failed operation left
/// at the path of the temporary file.
pub proof fn law_failed_write_keeps_files(
    cache: Cache,
    tpe: FileType,
    id: Id,
    content: Seq<u8>,
    left: Seq<u8>,
    disk: Disk,
    first: WriteStep,
    second: WriteStep,
    failure: Outcome,
    third: WriteStep,
    removed: Outcome,
    last: WriteStep,
)
    requires
        first matches WriteStep::CreateDirs { path } && path@ == cache.dir_text(tpe, id),
        cache.write_follows(tpe, id, first, Outcome::Done, second),
        failure !is Done,
        cache.write_follows(tpe, id, second, failure, third),
        cache.write_follows(tpe, id, third, removed, last),
    ensures
        last is Failed,
        ({
            let after = write_effect(
                disk.insert(cache.temp_text(tpe, id), left),
                third,
                content,
            );
            forall|other_tpe: FileType, other: Id| {
                let path = #[trigger] cache.path_text(other_tpe, other);
                after.contains_key(path) == disk.contains_key(path) && after[path] == disk[path]
            }
        }),
{
    assert forall|other_tpe: FileType, other: Id| #[trigger]
        cache.path_text(other_tpe, other) != cache.temp_text(tpe, id) by {
        law_temp_is_no_file(cache, tpe, id, other_tpe, other);
    }
}

/// A read of a part gives that part of the file, or tells that the cache does not hold the file,
/// or tells that the file is too short.
pub proof fn law_read_gives_part(
    cache: Cache,
    tpe: FileType,
    id: Id,
    offset: u32,
    length: u32,
    disk: Disk,
    steps: Seq<PartStep>,
    outcomes: Seq<PartOutcome>,
)
    requires
        steps.len() == 5,
        outcomes.len() == 4,
        steps[0] matches PartStep::Open { path } && path@ == cache.path_text(tpe, id),
        forall|i: int|
            0 <= i < 4 ==> cache.read_partial_follows(
                tpe,
                id,
                offset,
                length,
                #[trigger] steps[i],
                outcomes[i],
                steps[i + 1],
            ),
        forall|i: int|
            0 <= i < 4 ==> performs(
                disk,
                cache.path_text(tpe, id),
                offset,
                #[trigger] steps[i],
                outcomes[i],
            ),
    ensures
        ({
            let path = cache.path_text(tpe, id);
            steps[4] matches PartStep::Done(r) && if !disk.contains_key(path) {
                r == Ok::<Option<Bytes>, RusticError>(None)
            } else if offset + length <= disk[path].len() {
                r matches Ok(Some(part)) && buffer::bytes_seq(part) == disk[path].subrange(
                    offset as int,
                    offset + length,
                )
            } else {
                r matches Err(err) && err is ShortCacheFile
            }
        }),
{
    assert(performs(disk, cache.path_text(tpe, id), offset, steps[0], outcomes[0]));
    assert(performs(disk, cache.path_text(tpe, id), offset, steps[1], outcomes[1]));
    assert(performs(disk, cache.path_text(tpe, id), offset, steps[2], outcomes[2]));
    assert(performs(disk, cache.path_text(tpe, id), offset, steps[3], outcomes[3]));
}

/// Whether a file system with the files `disk` gives `outcome` for a step of a read of the file
/// `path` that has moved to the position `offset`.
pub open spec fn performs(
    disk: Disk,
    path: Seq<char>,
    offset: u32,
    step: PartStep,
    outcome: PartOutcome,
) -> bool {
    match step {
        PartStep::Open { .. } => outcome == if disk.contains_key(path) {
            PartOutcome::Done
        } else {
            PartOutcome::NotFound
        },
        PartStep::Size => outcome matches PartOutcome::Size(size) && size == disk[path].len(),
        PartStep::Seek { .. } => outcome == PartOutcome::Done,
        PartStep::Read { length } => outcome matches PartOutcome::Data(data) && data@
            == disk[path].subrange(offset as int, offset + length),
        PartStep::Done(_) => true,
    }
}

/// After the removal of the stale files, each file of the cache is in the listing of the backend,
/// with the same size.
pub proof fn law_cache_follows_listing(
    cached: Map<Id, u32>,
    list: Seq<(Id, u32)>,
    stale: Set<Id>,
    id: Id,
)
    requires
        forall|x: Id| #[trigger] stale.contains(x) <==> is_stale(cached, list, x),
        cached.remove_keys(stale).contains_key(id),
    ensures
        list.contains((id, cached[id])),
{
    assert(!stale.contains(id));
    lemma_first_size_is_listed(list, id);
}

proof fn lemma_first_size_is_listed(list: Seq<(Id, u32)>, id: Id)
    requires
        first_size(list, id) is Some,
    ensures
        list.contains((id, first_size(list, id)->Some_0)),
    decreases list.len(),
{
    if list[0].0 == id {
        assert(list[0] == (id, first_size(list, id)->Some_0));
    } else {
        lemma_first_size_is_listed(list.drop_first(), id);
        let j = choose|j: int|
            0 <= j < list.drop_first().len() && list.drop_first()[j] == (
                id,
                first_size(list, id)->Some_0,
            );
        assert(list[j + 1] == list.drop_first()[j]);
    }
}

/// The path of a file of the cache is the directory of the cache, the directory of the type, the
/// first two digits of the ID, and all digits of the ID, with `/` between them. The path of an
/// incomplete file has a suffix after it.
pub proof fn law_path_has_its_parts(
    cache: Cache,
    tpe: FileType,
    id: Id,
    texts: (String, String, String, String),
    dirname: &'static str,
    hex: String,
)
    requires
        call_ensures(Cache::type_dir, (&cache, tpe), texts.0),
        call_ensures(Cache::dir, (&cache, tpe, &id), texts.1),
        call_ensures(Cache::path, (&cache, tpe, &id), texts.2),
        call_ensures(Cache::temp_path, (&cache, tpe, &id), texts.3),
        call_ensures(FileType::dirname, (tpe,), dirname),
        call_ensures(Id::to_hex, (&id,), hex),
        cache.location_text().len() > 0,
        cache.location_text().last() != '/',
    ensures
        texts.0@ == cache.location_text() + seq!['/'] + dirname@,
        texts.1@ == cache.location_text() + seq!['/'] + dirname@ + seq!['/', hex@[0], hex@[1]],
        texts.2@ == texts.1@ + seq!['/'] + hex@,
        texts.3@ == texts.1@ + seq!['/'] + hex@ + seq!['-', 't', 'm', 'p', '-'],
{
    id::law_hex_is_hex_name(id);
    lemma_last_of_type(cache, tpe);
    reveal_strlit("-tmp-");
    let name = id.hex_digits();
    assert(id::is_hex_digit(name[1]));
    assert(cache.dir_text(tpe, id).last() == name[1]);
    assert(texts.1@ =~= texts.0@ + seq!['/'] + name.take(2));
    assert(texts.1@ =~= texts.0@ + seq!['/', hex@[0], hex@[1]]);
    assert(TEMP_SUFFIX@ =~= seq!['-', 't', 'm', 'p', '-']);
    assert(texts.3@ =~= texts.1@ + seq!['/'] + hex@ + seq!['-', 't', 'm', 'p', '-']);
}

/// A new cache is in a directory below the directory of all caches, with the digits of the ID of the
/// repository as its name. The creation first creates the directory of all caches, then its tag, then
/// the directory of the cache.
pub proof fn law_new_cache_is_below_the_root(
    id: Id,
    root: String,
    default_dir: Option<String>,
    hex: String,
    steps: (NewStep, NewStep, NewStep, NewStep),
)
    requires
        call_ensures(Cache::new, (Some(root), default_dir), steps.0),
        call_ensures(Cache::new_next, (id, steps.0, Outcome::Done), steps.1),
        call_ensures(Cache::new_next, (id, steps.1, Outcome::Done), steps.2),
        call_ensures(Cache::new_next, (id, steps.2, Outcome::Done), steps.3),
        call_ensures(Id::to_hex, (&id,), hex),
        root@.len() > 0,
        root@.last() != '/',
    ensures
        steps.0 is CreateRoot,
        steps.0->CreateRoot_path@ == root@,
        steps.1 is EnsureTag,
        steps.1->EnsureTag_path@ == root@,
        steps.2 is CreateRepository,
        steps.2->CreateRepository_path@ == root@ + seq!['/'] + hex@,
        steps.3 is Done,
        steps.3->Done_0.location_text() == root@ + seq!['/'] + hex@,
{
}

/// A failed step of the creation of a cache ends it with an error for this step and its directory.
pub proof fn law_failed_creation_tells_the_step(
    id: Id,
    step: NewStep,
    source: String,
    next: NewStep,
    last: NewStep,
    outcome: Outcome,
)
    requires
        !(step is Done) && !(step is Failed),
        call_ensures(Cache::new_next, (id, step, Outcome::Failed(source)), next),
        call_ensures(Cache::new_next, (id, next, outcome), last),
    ensures
        next is Failed,
        next->Failed_0 is CacheFile,
        next->Failed_0->CacheFile_source@ == source@,
        step is CreateRoot ==> next->Failed_0->step == CacheStep::CreateRoot
            && next->Failed_0->CacheFile_path@ == step->CreateRoot_path@,
        step is EnsureTag ==> next->Failed_0->step == CacheStep::EnsureTag
            && next->Failed_0->CacheFile_path@ == step->EnsureTag_path@,
        step is CreateRepository ==> next->Failed_0->step == (CacheStep::CreateRepository { id })
            && next->Failed_0->CacheFile_path@ == step->CreateRepository_path@,
        last == next,
{
}

/// Without a path and with a default directory, all caches are in the directory `rustic` of the
/// default directory. Without both there is no directory for caches.
pub proof fn law_default_root(dir: String, r: RusticResult<String>, none: RusticResult<String>)
    requires
        call_ensures(Cache::root, (None::<String>, Some(dir)), r),
        call_ensures(Cache::root, (None::<String>, None::<String>), none),
        dir@.len() > 0,
        dir@.last() != '/',
    ensures
        r is Ok,
        r->Ok_0@ == dir@ + seq!['/', 'r', 'u', 's', 't', 'i', 'c'],
        none is Err,
        none->Err_0 is NoCacheDirectory,
{
    reveal_strlit("rustic");
    assert(r->Ok_0@ =~= dir@ + seq!['/', 'r', 'u', 's', 't', 'i', 'c']);
}

/// A read of a part opens the file of the ID, moves to the position of the part, and reads as many
/// bytes as the part has. So it gives the bytes of the file from this position on. It neither moves
/// nor reads if the file ends before the part.
pub proof fn law_part_is_read_at_its_position(
    cache: Cache,
    tpe: FileType,
    id: Id,
    offset: u32,
    length: u32,
    file: Seq<u8>,
    size: u64,
    steps: (PartStep, PartStep, PartStep, PartStep, PartStep),
    data: Vec<u8>,
    path: String,
)
    requires
        call_ensures(Cache::path, (&cache, tpe, &id), path),
        call_ensures(Cache::read_partial, (&cache, tpe, &id), steps.0),
        call_ensures(
            Cache::read_partial_next,
            (&cache, tpe, &id, offset, length, steps.0, PartOutcome::Done),
            steps.1,
        ),
        size == file.len(),
        call_ensures(
            Cache::read_partial_next,
            (&cache, tpe, &id, offset, length, steps.1, PartOutcome::Size(size)),
            steps.2,
        ),
        call_ensures(
            Cache::read_partial_next,
            (&cache, tpe, &id, offset, length, steps.2, PartOutcome::Done),
            steps.3,
        ),
        steps.2 is Seek && steps.3 is Read ==> data@ == file.skip(steps.2->offset as int).take(
            steps.3->length as int,
        ),
        call_ensures(
            Cache::read_partial_next,
            (&cache, tpe, &id, offset, length, steps.3, PartOutcome::Data(data)),
            steps.4,
        ),
    ensures
        steps.0 is Open,
        steps.0->path@ == path@,
        steps.1 is Size,
        offset + length <= file.len() ==> {
            &&& steps.2 is Seek
            &&& steps.3 is Read
            &&& steps.4 is Done
            &&& steps.4->Done_0 is Ok
            &&& steps.4->Done_0->Ok_0 is Some
            &&& buffer::bytes_seq(steps.4->Done_0->Ok_0->0) == file.skip(offset as int).take(
                length as int,
            )
        },
        offset + length > file.len() ==> {
            &&& steps.2 is Done
            &&& steps.2->Done_0 is Err
            &&& steps.2->Done_0->Err_0 is ShortCacheFile
            &&& steps.2->Done_0->Err_0->ShortCacheFile_path@ == path@
            &&& steps.2->Done_0->Err_0->ShortCacheFile_file_length == file.len()
            &&& steps.2->Done_0->Err_0->ShortCacheFile_offset == offset
            &&& steps.2->Done_0->Err_0->ShortCacheFile_length == length
        },
{
}

/// A read of a part of a file that does not exist gives no data and no error.
pub proof fn law_missing_file_is_a_miss(
    cache: Cache,
    tpe: FileType,
    id: Id,
    offset: u32,
    length: u32,
    first: PartStep,
    next: PartStep,
    full: RusticResult<Option<Bytes>>,
)
    requires
        call_ensures(Cache::read_partial, (&cache, tpe, &id), first),
        call_ensures(
            Cache::read_partial_next,
            (&cache, tpe, &id, offset, length, first, PartOutcome::NotFound),
            next,
        ),
        call_ensures(Cache::read_full, (&cache, tpe, &id, Found::<Vec<u8>>::NotFound), full),
    ensures
        next is Done,
        next->Done_0 is Ok,
        next->Done_0->Ok_0 is None,
        full is Ok,
        full->Ok_0 is None,
{
}

/// The files to remove from a cache are exactly those that the listing of the backend does not have
/// with the size in the cache, where the listing has each file at most once.
pub proof fn law_stale_files_are_removed(
    cached: SortedMap<Id, u32>,
    list: Vec<(Id, u32)>,
    r: RusticResult<Vec<Id>>,
    id: Id,
)
    requires
        call_ensures(
            Cache::remove_not_in_list,
            (Ok::<SortedMap<Id, u32>, RusticError>(cached), &list),
            r,
        ),
        forall|i: int, j: int|
            0 <= i < j < list.len() ==> (#[trigger] list@[i]).0 != (#[trigger] list@[j]).0,
    ensures
        r is Ok,
        r->Ok_0@.contains(id) <==> cached@.contains_key(id) && !list@.contains((id, cached@[id])),
{
    if cached@.contains_key(id) {
        let size = cached@[id];
        if first_size(list@, id) is Some {
            lemma_first_size_is_listed(list@, id);
            let found = first_size(list@, id)->0;
            let j = choose|j: int| 0 <= j < list@.len() && list@[j] == (id, found);
            if list@.contains((id, size)) {
                let k = choose|k: int| 0 <= k < list@.len() && list@[k] == (id, size);
                assert(j == k);
            }
        } else if list@.contains((id, size)) {
            let k = choose|k: int| 0 <= k < list@.len() && list@[k] == (id, size);
            lemma_listed_has_first_size(list@, id, k);
        }
    }
}

proof fn lemma_listed_has_first_size(list: Seq<(Id, u32)>, id: Id, k: int)
    requires
        0 <= k < list.len(),
        list[k].0 == id,
    ensures
        first_size(list, id) is Some,
    decreases list.len(),
{
    if list[0].0 != id {
        lemma_listed_has_first_size(list.drop_first(), id, k - 1);
    }
}

/// An entry of a walk is a file of the cache exactly if it is a regular file whose name is 64
/// hexadecimal digits in lower case. Then the digits are the digits of the ID. The size counts, if it
/// is known and fits.
pub proof fn law_walk_entry_is_a_file(entry: WalkEntry, r: Option<(Id, u32)>)
    requires
        call_ensures(WalkEntry::cached_file, (&entry,), r),
    ensures
        r is Some <==> entry.is_file && entry.name is Some && entry.name->0@.len() == 64 && (forall|
            i: int,
        |
            0 <= i < 64 ==> ('0' <= #[trigger] entry.name->0@[i] <= '9' || 'a' <= entry.name->0@[i]
                <= 'f')),
        r is Some ==> (r->Some_0).0.hex_digits() == entry.name->0@,
        r is Some && entry.size is Some && entry.size->0 <= u32::MAX ==> (r->Some_0).1 == entry.size->0,
        r is Some && (entry.size is None || entry.size->0 > u32::MAX) ==> (r->Some_0).1 == 0,
{
    if entry.is_file && entry.name is Some {
        let name = entry.name->0@;
        if name.len() == 64 && (forall|i: int|
            0 <= i < 64 ==> ('0' <= #[trigger] name[i] <= '9' || 'a' <= name[i] <= 'f')) {
            assert(id::is_hex_name(name));
            let id = id::law_each_hex_name_has_an_id(name);
            assert(entry.is_cached_file(id));
        }
        if r is Some {
            assert(id::is_hex_name(name));
            assert forall|i: int| 0 <= i < 64 implies ('0' <= #[trigger] name[i] <= '9' || 'a'
                <= name[i] <= 'f') by {
                assert(id::is_hex_digit(name[i]));
            }
        }
    }
}

/// A walk fails exactly if it has an error, except that the directory of the walk itself does not
/// exist.
pub proof fn law_walk_fails_with_its_errors(
    cache: Cache,
    tpe: FileType,
    walk: Vec<WalkItem>,
    r: RusticResult<SortedMap<Id, u32>>,
)
    requires
        call_ensures(Cache::list_with_size, (&cache, tpe, &walk), r),
    ensures
        r is Err <==> exists|i: int|
            0 <= i < walk.len() && (#[trigger] walk@[i]) is Error && (walk@[i]->Error_0.depth > 0
                || !walk@[i]->Error_0.not_found),
        r is Err ==> exists|i: int|
            {
                &&& 0 <= i < walk.len()
                &&& (#[trigger] walk@[i]) is Error
                &&& r->Err_0 is CacheFile
                &&& r->Err_0->CacheFile_source@ == walk@[i]->Error_0.message@
                &&& r->Err_0->CacheFile_path@ == cache.type_text(tpe)
            },
{
    if r is Err {
        let failed = choose|failed: int| #[trigger]
            is_first_failure(walk@, failed) && is_step_error(
                r->Err_0,
                CacheStep::List,
                cache.type_text(tpe),
                walk[failed]->Error_0.message@,
            );
        assert(walk@[failed] is Error);
    } else {
        assert forall|i: int| 0 <= i < walk.len() && (#[trigger] walk@[i]) is Error implies
            walk@[i]->Error_0.depth == 0 && walk@[i]->Error_0.not_found by {
            assert(!walk[i].fails());
        }
    }
}

/// A failed read of a full file and a failed removal give an error for the path of the file, with the
/// operation and the error of the file system. A removal that succeeds is no error, and a read gives the
/// data of the file.
pub proof fn law_failed_operations_tell_the_path(
    cache: Cache,
    tpe: FileType,
    id: Id,
    path: String,
    source: String,
    data: Vec<u8>,
    reads: (RusticResult<Option<Bytes>>, RusticResult<Option<Bytes>>),
    removals: (RusticResult<()>, RusticResult<()>),
)
    requires
        call_ensures(Cache::path, (&cache, tpe, &id), path),
        call_ensures(Cache::read_full, (&cache, tpe, &id, Found::Done(data)), reads.0),
        call_ensures(
            Cache::read_full,
            (&cache, tpe, &id, Found::<Vec<u8>>::Failed(source)),
            reads.1,
        ),
        call_ensures(Cache::remove, (&cache, tpe, &id, Outcome::Done), removals.0),
        call_ensures(Cache::remove, (&cache, tpe, &id, Outcome::Failed(source)), removals.1),
    ensures
        reads.0 is Ok,
        reads.0->Ok_0 is Some,
        buffer::bytes_seq(reads.0->Ok_0->0) == data@,
        reads.1 is Err,
        reads.1->Err_0 is CacheFile,
        reads.1->Err_0->step == CacheStep::ReadFull,
        reads.1->Err_0->CacheFile_path@ == path@,
        reads.1->Err_0->CacheFile_source@ == source@,
        removals.0 is Ok,
        removals.1 is Err,
        removals.1->Err_0 is CacheFile,
        removals.1->Err_0->step == CacheStep::Remove,
        removals.1->Err_0->CacheFile_path@ == path@,
        removals.1->Err_0->CacheFile_source@ == source@,
{
}

/// A write goes through its steps in order: the directory of the file, the temporary file, and the
/// move of the temporary file to the path of the file.
pub proof fn law_write_goes_step_by_step(
    cache: Cache,
    tpe: FileType,
    id: Id,
    texts: (String, String, String),
    steps: (WriteStep, WriteStep, WriteStep, WriteStep),
)
    requires
        call_ensures(Cache::dir, (&cache, tpe, &id), texts.0),
        call_ensures(Cache::temp_path, (&cache, tpe, &id), texts.1),
        call_ensures(Cache::path, (&cache, tpe, &id), texts.2),
        call_ensures(Cache::write_bytes, (&cache, tpe, &id), steps.0),
        call_ensures(Cache::write_bytes_next, (&cache, tpe, &id, steps.0, Outcome::Done), steps.1),
        call_ensures(Cache::write_bytes_next, (&cache, tpe, &id, steps.1, Outcome::Done), steps.2),
        call_ensures(Cache::write_bytes_next, (&cache, tpe, &id, steps.2, Outcome::Done), steps.3),
    ensures
        steps.0 is CreateDirs,
        steps.0->CreateDirs_path@ == texts.0@,
        steps.1 is WriteTemp,
        steps.1->WriteTemp_path@ == texts.1@,
        steps.2 is Move,
        steps.2->from@ == texts.1@,
        steps.2->to@ == texts.2@,
        steps.3 is Done,
{
}

/// A failed write of the temporary file removes it, and then fails with the error of the write, if the
/// removal succeeds or not. A failed move and a failed creation of the directory fail at once.
pub proof fn law_failed_write_removes_its_file(
    cache: Cache,
    tpe: FileType,
    id: Id,
    texts: (String, String, String),
    step: WriteStep,
    source: String,
    next: WriteStep,
    removed: Outcome,
    last: WriteStep,
)
    requires
        call_ensures(Cache::dir, (&cache, tpe, &id), texts.0),
        call_ensures(Cache::temp_path, (&cache, tpe, &id), texts.1),
        call_ensures(Cache::path, (&cache, tpe, &id), texts.2),
        step is CreateDirs || step is WriteTemp || step is Move,
        call_ensures(Cache::write_bytes_next, (&cache, tpe, &id, step, Outcome::Failed(source)), next),
        call_ensures(Cache::write_bytes_next, (&cache, tpe, &id, next, removed), last),
    ensures
        step is WriteTemp ==> next is RemoveTemp && next->RemoveTemp_path@ == texts.1@,
        step is CreateDirs || step is Move ==> next is Failed,
        last is Failed,
        last->Failed_0 is CacheFile,
        last->Failed_0->CacheFile_source@ == source@,
        step is CreateDirs ==> last->Failed_0->step == CacheStep::CreateDirs
            && last->Failed_0->CacheFile_path@ == texts.0@,
        step is WriteTemp ==> last->Failed_0->step == CacheStep::Write
            && last->Failed_0->CacheFile_path@ == texts.1@,
        step is Move ==> last->Failed_0->step is Move && last->Failed_0->CacheFile_path@ == texts.2@,
{
}

} // verus!
