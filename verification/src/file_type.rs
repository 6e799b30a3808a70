//! The types of the files and blobs of a repository.

use vstd::prelude::*;

verus! {

/// The type of a file of a repository.
#[derive(Debug, Clone, Copy, PartialEq, Eq, Structural, Hash)]
pub enum FileType {
    /// The config file.
    Config,
    /// An index file.
    Index,
    /// A key file.
    Key,
    /// A snapshot file.
    Snapshot,
    /// A pack file.
    Pack,
}

/// The type of a blob of a pack file.
#[derive(Debug, Clone, Copy, PartialEq, Eq, Structural, Hash)]
pub enum BlobType {
    /// A tree blob.
    Tree,
    /// A data blob.
    Data,
}

impl FileType {
    /// The name of the directory for files of this type.
    pub open spec fn dirname_text(self) -> Seq<char> {
        match self {
            FileType::Config => "config"@,
            FileType::Index => "index"@,
            FileType::Key => "keys"@,
            FileType::Snapshot => "snapshots"@,
            FileType::Pack => "data"@,
        }
    }

    /// The name of this type.
    pub open spec fn name_text(self) -> Seq<char> {
        match self {
            FileType::Config => "Config"@,
            FileType::Index => "Index"@,
            FileType::Key => "Key"@,
            FileType::Snapshot => "Snapshot"@,
            FileType::Pack => "Pack"@,
        }
    }

    /// Whether a cache holds each file of this type.
    pub open spec fn cacheable(self) -> bool {
        self is Index || self is Snapshot
    }

    /// Gives the name of the directory for files of this type.
    pub fn dirname(self) -> (r: &'static str)
        ensures
            r@ == self.dirname_text(),
    {
        match self {
            FileType::Config => "config",
            FileType::Index => "index",
            FileType::Key => "keys",
            FileType::Snapshot => "snapshots",
            FileType::Pack => "data",
        }
    }

    /// Gives the name of this type.
    pub fn name(self) -> (r: &'static str)
        ensures
            r@ == self.name_text(),
    {
        match self {
            FileType::Config => "Config",
            FileType::Index => "Index",
            FileType::Key => "Key",
            FileType::Snapshot => "Snapshot",
            FileType::Pack => "Pack",
        }
    }

    /// Tells if a cache holds each file of this type.
    ///
    /// A cache holds a pack file only if the caller of a read or a write says so.
    pub fn is_cacheable(self) -> (r: bool)
        ensures
            r == self.cacheable(),
    {
        match self {
            FileType::Index | FileType::Snapshot => true,
            FileType::Config | FileType::Key | FileType::Pack => false,
        }
    }
}

impl BlobType {
    /// The name of this type.
    pub open spec fn name_text(self) -> Seq<char> {
        match self {
            BlobType::Tree => "Tree"@,
            BlobType::Data => "Data"@,
        }
    }

    /// Gives the name of this type.
    pub fn name(self) -> (r: &'static str)
        ensures
            r@ == self.name_text(),
    {
        match self {
            BlobType::Tree => "Tree",
            BlobType::Data => "Data",
        }
    }

    /// Tells if a cache holds the packs with blobs of this type.
    pub fn is_cacheable(self) -> (r: bool)
        ensures
            r == (self is Tree),
    {
        match self {
            BlobType::Tree => true,
            BlobType::Data => false,
        }
    }
}

/// One value for each file type.
#[derive(Debug, Clone)]
pub struct PerType<T> {
    /// The value for config files.
    pub config: T,
    /// The value for index files.
    pub index: T,
    /// The value for key files.
    pub key: T,
    /// The value for snapshot files.
    pub snapshot: T,
    /// The value for pack files.
    pub pack: T,
}

impl<T> PerType<T> {
    /// The value for `tpe`.
    pub open spec fn of(self, tpe: FileType) -> T {
        match tpe {
            FileType::Config => self.config,
            FileType::Index => self.index,
            FileType::Key => self.key,
            FileType::Snapshot => self.snapshot,
            FileType::Pack => self.pack,
        }
    }

    /// Gives the value for `tpe`.
    pub fn get(&self, tpe: FileType) -> (r: &T)
        ensures
            *r == self.of(tpe),
    {
        match tpe {
            FileType::Config => &self.config,
            FileType::Index => &self.index,
            FileType::Key => &self.key,
            FileType::Snapshot => &self.snapshot,
            FileType::Pack => &self.pack,
        }
    }

    /// Gives the value for `tpe`, to change it.
    pub fn get_mut(&mut self, tpe: FileType) -> (r: &mut T)
        ensures
            *r == old(self).of(tpe),
            final(self).of(tpe) == *final(r),
            forall|other: FileType|
                other != tpe ==> #[trigger] final(self).of(other) == old(self).of(other),
    {
        match tpe {
            FileType::Config => &mut self.config,
            FileType::Index => &mut self.index,
            FileType::Key => &mut self.key,
            FileType::Snapshot => &mut self.snapshot,
            FileType::Pack => &mut self.pack,
        }
    }
}

/// A cache holds each index file and each snapshot file, and no config file and no key file. It holds
/// the packs with trees, and not the packs with data.
pub proof fn law_what_a_cache_holds(tpe: FileType, held: bool, blob: BlobType, packs: bool)
    requires
        call_ensures(FileType::is_cacheable, (tpe,), held),
        call_ensures(BlobType::is_cacheable, (blob,), packs),
    ensures
        held <==> tpe == FileType::Index || tpe == FileType::Snapshot,
        packs <==> blob == BlobType::Tree,
{
}

/// Two types of files have different directories and different names.
pub proof fn law_types_have_their_own_names(
    a: FileType,
    b: FileType,
    dirs: (&'static str, &'static str),
    names: (&'static str, &'static str),
)
    requires
        a != b,
        call_ensures(FileType::dirname, (a,), dirs.0),
        call_ensures(FileType::dirname, (b,), dirs.1),
        call_ensures(FileType::name, (a,), names.0),
        call_ensures(FileType::name, (b,), names.1),
    ensures
        dirs.0@ != dirs.1@,
        names.0@ != names.1@,
{
    reveal_strlit("config");
    reveal_strlit("index");
    reveal_strlit("keys");
    reveal_strlit("snapshots");
    reveal_strlit("data");
    reveal_strlit("Config");
    reveal_strlit("Index");
    reveal_strlit("Key");
    reveal_strlit("Snapshot");
    reveal_strlit("Pack");
    assert(dirs.0@[0] != dirs.1@[0]);
    assert(names.0@[0] != names.1@[0]);
}

/// The value for a type is the value of its field.
pub proof fn law_value_of_a_type<T>(values: PerType<T>, tpe: FileType, r: &T)
    requires
        call_ensures(PerType::<T>::get, (&values, tpe), r),
    ensures
        tpe == FileType::Config ==> *r == values.config,
        tpe == FileType::Index ==> *r == values.index,
        tpe == FileType::Key ==> *r == values.key,
        tpe == FileType::Snapshot ==> *r == values.snapshot,
        tpe == FileType::Pack ==> *r == values.pack,
{
}

} // verus!
