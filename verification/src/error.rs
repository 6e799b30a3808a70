//! The errors of the library.

use vstd::prelude::*;

use crate::file_type::{BlobType, FileType};
use crate::id::{BlobId, Id};
use crate::text::{self, push_decimal};

verus! {

/// The kind of an error.
#[derive(Debug, Clone, Copy, PartialEq, Eq, Structural)]
pub enum ErrorKind {
    /// An error of a backend.
    Backend,
    /// An error of a file operation.
    InputOutput,
    /// An error in the use of the library.
    Internal,
    /// Another error.
    Other,
}

/// An operation of a backend.
#[derive(Debug, Clone, Copy, PartialEq, Eq, Structural)]
pub enum BackendOp {
    /// Lists the files of a type.
    List,
    /// Reads a full file.
    ReadFull,
    /// Reads a part of a file.
    ReadPartial,
    /// Writes a file.
    Write,
    /// Removes a file.
    Remove,
}

/// A call to a backend.
#[derive(Debug, Clone, Copy, PartialEq, Eq, Structural)]
pub struct BackendCall {
    /// The operation of the call.
    pub op: BackendOp,
    /// The type of the file.
    pub tpe: FileType,
    /// The ID of the file. A listing has no ID.
    pub id: Option<Id>,
}

/// A file operation of a cache.
#[derive(Debug, Clone)]
pub enum CacheStep {
    /// Creates the directory of all caches.
    CreateRoot,
    /// Writes the tag of a cache directory.
    EnsureTag,
    /// Creates the directory of the cache of one repository.
    CreateRepository {
        /// The ID of the repository.
        id: Id,
    },
    /// Lists the files of a directory.
    List,
    /// Reads a file.
    ReadFull,
    /// Opens a file to read it.
    Open,
    /// Reads the size of a file.
    Size,
    /// Moves the position in a file.
    Seek {
        /// The new position.
        offset: u32,
    },
    /// Reads a part of a file.
    ReadPart {
        /// The position of the part.
        offset: u32,
    },
    /// Opens a file to write it.
    OpenForWrite,
    /// Writes a file.
    Write,
    /// Creates the directory of a file.
    CreateDirs,
    /// Moves a file to its final path.
    Move {
        /// The path of the file before the move.
        path_tmp: String,
    },
    /// Removes a file.
    Remove,
}

/// An error of the library.
#[allow(inconsistent_fields)]
#[derive(Debug, Clone)]
pub enum RusticError {
    /// A cold backend gets a read of a file that is not warmed up.
    NotWarmedUp {
        /// The type of the file.
        tpe: FileType,
        /// The ID of the file.
        id: Id,
    },
    /// A backend gets a read of a file that it does not hold.
    MissingElement {
        /// The type of the file.
        tpe: FileType,
        /// The ID of the file.
        id: Id,
    },
    /// A backend gets a write of a file that it holds.
    IdExists {
        /// The ID of the file.
        id: Id,
    },
    /// A backend gets a removal of a file that it does not hold.
    IdMissing {
        /// The ID of the file.
        id: Id,
    },
    /// A fault was injected into a call.
    InjectedFault {
        /// The call.
        call: BackendCall,
    },
    /// A file of the backend is shorter than the end of the range to read.
    ShortFile {
        /// The type of the file.
        tpe: FileType,
        /// The ID of the file.
        id: Id,
        /// The length of the file.
        file_length: usize,
        /// The start of the range.
        offset: u32,
        /// The length of the range.
        length: u32,
    },
    /// A file of the cache is shorter than the end of the range to read.
    ShortCacheFile {
        /// The path of the file.
        path: String,
        /// The length of the file.
        file_length: u64,
        /// The start of the range.
        offset: u32,
        /// The length of the range.
        length: u32,
    },
    /// The system has no default directory for caches.
    NoCacheDirectory,
    /// A file operation of a cache fails.
    CacheFile {
        /// The operation.
        step: CacheStep,
        /// The path of the operation.
        path: String,
        /// The error of the operation.
        source: String,
    },
    /// A blob is not in the index.
    BlobNotInIndex {
        /// The ID of the blob.
        id: BlobId,
        /// The type of the blob.
        tpe: BlobType,
    },
    /// The index has another user after the last try to take it.
    IndexInUse {
        /// The number of tries with a wait.
        tries: u64,
        /// The time of each wait in milliseconds.
        wait: u64,
    },
    /// The tree stack of the parent snapshot is empty.
    TreeStackEmpty,
    /// An error with its own message.
    Other {
        /// The kind of the error.
        kind: ErrorKind,
        /// The message.
        message: String,
    },
}

impl BackendOp {
    /// The name of the operation.
    pub open spec fn name_text(self) -> Seq<char> {
        match self {
            BackendOp::List => "List"@,
            BackendOp::ReadFull => "ReadFull"@,
            BackendOp::ReadPartial => "ReadPartial"@,
            BackendOp::Write => "Write"@,
            BackendOp::Remove => "Remove"@,
        }
    }

    /// Gives the name of the operation.
    pub fn name(self) -> (r: &'static str)
        ensures
            r@ == self.name_text(),
    {
        match self {
            BackendOp::List => "List",
            BackendOp::ReadFull => "ReadFull",
            BackendOp::ReadPartial => "ReadPartial",
            BackendOp::Write => "Write",
            BackendOp::Remove => "Remove",
        }
    }
}

impl CacheStep {
    /// The message for a failure of the operation at `path`.
    pub open spec fn message_text(&self, path: Seq<char>) -> Seq<char> {
        match self {
            CacheStep::CreateRoot => "Failed to create cache directory at `"@ + path + "`"@,
            CacheStep::EnsureTag => "Failed to ensure cache directory tag at `"@ + path + "`"@,
            CacheStep::CreateRepository { id } => "Failed to create cache directory with id `"@
                + id.hex_digits() + "` at `"@ + path + "`"@,
            CacheStep::List => "Failed to list the files at `"@ + path + "`"@,
            CacheStep::ReadFull => "Failed to read full data of file at `"@ + path + "`"@,
            CacheStep::Open => "Failed to open file at `"@ + path + "`"@,
            CacheStep::Size => "Failed to read the size of the file `"@ + path + "`"@,
            CacheStep::Seek { offset } => "Failed to seek to `"@ + text::decimal(*offset as nat)
                + "` in file `"@ + path + "`"@,
            CacheStep::ReadPart { offset } => "Failed to read at offset `"@ + text::decimal(
                *offset as nat,
            ) + "` from file at `"@ + path + "`"@,
            CacheStep::OpenForWrite => "Failed to open the file `"@ + path + "`."@,
            CacheStep::Write => "Failed to write to the buffer: `"@ + path + "`."@,
            CacheStep::CreateDirs => "Failed to create directories at `"@ + path + "`"@,
            CacheStep::Move { path_tmp } => "Failed to move `"@ + path_tmp@ + "` to `"@ + path
                + "`"@,
            CacheStep::Remove => "Failed to remove file at `"@ + path + "`"@,
        }
    }

    /// Appends the message for a failure of the operation at `path` to `out`.
    fn push_message(&self, out: &mut String, path: &String)
        ensures
            final(out)@ == old(out)@ + self.message_text(path@),
    {
        match self {
            CacheStep::CreateRoot => {
                out.append("Failed to create cache directory at `");
            },
            CacheStep::EnsureTag => {
                out.append("Failed to ensure cache directory tag at `");
            },
            CacheStep::CreateRepository { id } => {
                out.append("Failed to create cache directory with id `");
                out.append(id.to_hex().as_str());
                out.append("` at `");
            },
            CacheStep::List => {
                out.append("Failed to list the files at `");
            },
            CacheStep::ReadFull => {
                out.append("Failed to read full data of file at `");
            },
            CacheStep::Open => {
                out.append("Failed to open file at `");
            },
            CacheStep::Size => {
                out.append("Failed to read the size of the file `");
            },
            CacheStep::Seek { offset } => {
                out.append("Failed to seek to `");
                push_decimal(out, *offset as u64);
                out.append("` in file `");
            },
            CacheStep::ReadPart { offset } => {
                out.append("Failed to read at offset `");
                push_decimal(out, *offset as u64);
                out.append("` from file at `");
            },
            CacheStep::OpenForWrite => {
                out.append("Failed to open the file `");
            },
            CacheStep::Write => {
                out.append("Failed to write to the buffer: `");
            },
            CacheStep::CreateDirs => {
                out.append("Failed to create directories at `");
            },
            CacheStep::Move { path_tmp } => {
                out.append("Failed to move `");
                out.append(path_tmp.as_str());
                out.append("` to `");
            },
            CacheStep::Remove => {
                out.append("Failed to remove file at `");
            },
        }
        out.append(path.as_str());
        match self {
            CacheStep::OpenForWrite | CacheStep::Write => {
                out.append("`.");
            },
            _ => {
                out.append("`");
            },
        }
        assert(out@ =~= old(out)@ + self.message_text(path@));
    }
}

/// The text of the ID of a call: its hexadecimal digits, or `none`.
pub open spec fn call_id_text(id: Option<Id>) -> Seq<char> {
    match id {
        Some(id) => id.hex_digits(),
        None => "none"@,
    }
}

/// The end of the message for a file that is too short for a read.
pub open spec fn short_text(file_length: nat, offset: nat, length: nat) -> Seq<char> {
    "` has `"@ + text::decimal(file_length) + "` bytes. The read needs `"@ + text::decimal(length)
        + "` bytes at the offset `"@ + text::decimal(offset) + "`."@
}

/// Appends the end of the message for a file that is too short for a read.
fn push_short(out: &mut String, file_length: u64, offset: u32, length: u32)
    ensures
        final(out)@ == old(out)@ + short_text(file_length as nat, offset as nat, length as nat),
{
    out.append("` has `");
    push_decimal(out, file_length);
    out.append("` bytes. The read needs `");
    push_decimal(out, length as u64);
    out.append("` bytes at the offset `");
    push_decimal(out, offset as u64);
    out.append("`.");
    assert(out@ =~= old(out)@ + short_text(file_length as nat, offset as nat, length as nat));
}

impl RusticError {
    /// The kind of the error.
    pub open spec fn kind_of(&self) -> ErrorKind {
        match self {
            RusticError::NotWarmedUp { .. } => ErrorKind::Backend,
            RusticError::MissingElement { .. } => ErrorKind::Backend,
            RusticError::IdExists { .. } => ErrorKind::Backend,
            RusticError::IdMissing { .. } => ErrorKind::Backend,
            RusticError::InjectedFault { .. } => ErrorKind::Backend,
            RusticError::ShortFile { .. } => ErrorKind::Backend,
            RusticError::ShortCacheFile { .. } => ErrorKind::InputOutput,
            RusticError::NoCacheDirectory => ErrorKind::Backend,
            RusticError::CacheFile { .. } => ErrorKind::InputOutput,
            RusticError::BlobNotInIndex { .. } => ErrorKind::Internal,
            RusticError::IndexInUse { .. } => ErrorKind::Internal,
            RusticError::TreeStackEmpty => ErrorKind::Internal,
            RusticError::Other { kind, .. } => *kind,
        }
    }

    /// The message of the error.
    pub open spec fn message_text(&self) -> Seq<char> {
        match self {
            RusticError::NotWarmedUp { tpe, id } => "tpe "@ + tpe.name_text() + " id `"@
                + id.hex_digits() + "` is not warmed-up"@,
            RusticError::MissingElement { tpe, id } => "Element tpe: "@ + tpe.name_text()
                + ", id: "@ + id.hex_digits() + " does not exist in backend"@,
            RusticError::IdExists { id } => "ID `"@ + id.hex_digits() + "` already exists."@,
            RusticError::IdMissing { id } => "ID `"@ + id.hex_digits() + "` does not exist."@,
            RusticError::InjectedFault { call } => "Injected fault in the call `"@
                + call.op.name_text() + "` for the file type `"@ + call.tpe.name_text()
                + "` and the ID `"@ + call_id_text(call.id) + "`."@,
            RusticError::ShortFile { tpe, id, file_length, offset, length } => "The `"@
                + tpe.name_text() + "` file `"@ + id.hex_digits() + short_text(
                *file_length as nat,
                *offset as nat,
                *length as nat,
            ),
            RusticError::ShortCacheFile { path, file_length, offset, length } => "The file at `"@
                + path@ + short_text(*file_length as nat, *offset as nat, *length as nat),
            RusticError::NoCacheDirectory =>
                "Cache directory could not be determined, please set the environment variable XDG_CACHE_HOME or HOME!"@,
            RusticError::CacheFile { step, path, source } => step.message_text(path@),
            RusticError::BlobNotInIndex { id, tpe } => "Blob `"@ + id.0.hex_digits()
                + "` with type `"@ + tpe.name_text() + "` not found in index"@,
            RusticError::IndexInUse { tries, wait } => "The index is still in use after `"@
                + text::decimal(*tries as nat) + "` tries in `"@ + text::decimal(*wait as nat)
                + "` milliseconds each. Please try again."@,
            RusticError::TreeStackEmpty => "The tree stack of the parent snapshot is empty."@,
            RusticError::Other { kind, message } => message@,
        }
    }

    /// Gives the kind of the error.
    pub fn kind(&self) -> (r: ErrorKind)
        ensures
            r == self.kind_of(),
    {
        match self {
            RusticError::NotWarmedUp { .. }
            | RusticError::MissingElement { .. }
            | RusticError::IdExists { .. }
            | RusticError::IdMissing { .. }
            | RusticError::InjectedFault { .. }
            | RusticError::ShortFile { .. }
            | RusticError::NoCacheDirectory => ErrorKind::Backend,
            RusticError::ShortCacheFile { .. } | RusticError::CacheFile { .. } => {
                ErrorKind::InputOutput
            },
            RusticError::BlobNotInIndex { .. }
            | RusticError::IndexInUse { .. }
            | RusticError::TreeStackEmpty => ErrorKind::Internal,
            RusticError::Other { kind, .. } => *kind,
        }
    }

    /// Gives the message of the error.
    pub fn to_string(&self) -> (r: String)
        ensures
            r@ == self.message_text(),
    {
        let mut out = String::new();
        match self {
            RusticError::NotWarmedUp { tpe, id } => {
                out.append("tpe ");
                out.append(tpe.name());
                out.append(" id `");
                out.append(id.to_hex().as_str());
                out.append("` is not warmed-up");
            },
            RusticError::MissingElement { tpe, id } => {
                out.append("Element tpe: ");
                out.append(tpe.name());
                out.append(", id: ");
                out.append(id.to_hex().as_str());
                out.append(" does not exist in backend");
            },
            RusticError::IdExists { id } => {
                out.append("ID `");
                out.append(id.to_hex().as_str());
                out.append("` already exists.");
            },
            RusticError::IdMissing { id } => {
                out.append("ID `");
                out.append(id.to_hex().as_str());
                out.append("` does not exist.");
            },
            RusticError::InjectedFault { call } => {
                out.append("Injected fault in the call `");
                out.append(call.op.name());
                out.append("` for the file type `");
                out.append(call.tpe.name());
                out.append("` and the ID `");
                match &call.id {
                    Some(id) => {
                        out.append(id.to_hex().as_str());
                    },
                    None => {
                        out.append("none");
                    },
                }
                out.append("`.");
            },
            RusticError::ShortFile { tpe, id, file_length, offset, length } => {
                out.append("The `");
                out.append(tpe.name());
                out.append("` file `");
                out.append(id.to_hex().as_str());
                push_short(&mut out, *file_length as u64, *offset, *length);
            },
            RusticError::ShortCacheFile { path, file_length, offset, length } => {
                out.append("The file at `");
                out.append(path.as_str());
                push_short(&mut out, *file_length, *offset, *length);
            },
            RusticError::NoCacheDirectory => {
                out.append(
                    "Cache directory could not be determined, please set the environment variable XDG_CACHE_HOME or HOME!",
                );
            },
            RusticError::CacheFile { step, path, .. } => {
                step.push_message(&mut out, path);
            },
            RusticError::BlobNotInIndex { id, tpe } => {
                out.append("Blob `");
                out.append(id.0.to_hex().as_str());
                out.append("` with type `");
                out.append(tpe.name());
                out.append("` not found in index");
            },
            RusticError::IndexInUse { tries, wait } => {
                out.append("The index is still in use after `");
                push_decimal(&mut out, *tries);
                out.append("` tries in `");
                push_decimal(&mut out, *wait);
                out.append("` milliseconds each. Please try again.");
            },
            RusticError::TreeStackEmpty => {
                out.append("The tree stack of the parent snapshot is empty.");
            },
            RusticError::Other { message, .. } => {
                out.append(message.as_str());
            },
        }
        assert(out@ =~= self.message_text());
        out
    }
}

/// The result of an operation of the library.
pub type RusticResult<T> = Result<T, RusticError>;

/// An error of a backend and of the choice of a cache directory is a backend error. An error of a
/// file of the cache is an input or output error. An error of the index and of the tree stack is an
/// internal error. Another error has its own kind and its own message.
pub proof fn law_kinds_of_errors(err: RusticError, kind: ErrorKind, message: String)
    requires
        call_ensures(RusticError::kind, (&err,), kind),
        call_ensures(RusticError::to_string, (&err,), message),
    ensures
        err is NotWarmedUp || err is MissingElement || err is IdExists || err is IdMissing || err
            is InjectedFault || err is ShortFile || err is NoCacheDirectory ==> kind
            == ErrorKind::Backend,
        err is ShortCacheFile || err is CacheFile ==> kind == ErrorKind::InputOutput,
        err is BlobNotInIndex || err is IndexInUse || err is TreeStackEmpty ==> kind
            == ErrorKind::Internal,
        err is Other ==> kind == err->kind && message@ == err->message@,
{
}

proof fn lemma_between(before: Seq<char>, part: Seq<char>, after: Seq<char>)
    ensures
        text::is_substring(before + part + after, part),
{
    text::lemma_substring(before + part + after, part);
    assert((before + part) + after == before + part + after);
}

/// The message of an error about a file or a blob names it by the digits of its ID, and by its type if
/// the error has it.
pub proof fn law_messages_name_the_file(
    tpe: FileType,
    id: Id,
    blob: BlobId,
    blob_type: BlobType,
    messages: (String, String, String, String, String),
)
    requires
        call_ensures(
            RusticError::to_string,
            (&RusticError::NotWarmedUp { tpe, id },),
            messages.0,
        ),
        call_ensures(
            RusticError::to_string,
            (&RusticError::MissingElement { tpe, id },),
            messages.1,
        ),
        call_ensures(RusticError::to_string, (&RusticError::IdExists { id },), messages.2),
        call_ensures(RusticError::to_string, (&RusticError::IdMissing { id },), messages.3),
        call_ensures(
            RusticError::to_string,
            (&RusticError::BlobNotInIndex { id: blob, tpe: blob_type },),
            messages.4,
        ),
    ensures
        text::is_substring(messages.0@, id.hex_digits()),
        text::is_substring(messages.0@, tpe.name_text()),
        text::is_substring(messages.1@, id.hex_digits()),
        text::is_substring(messages.1@, tpe.name_text()),
        text::is_substring(messages.2@, id.hex_digits()),
        text::is_substring(messages.3@, id.hex_digits()),
        text::is_substring(messages.4@, blob.0.hex_digits()),
        text::is_substring(messages.4@, blob_type.name_text()),
{
    let (h, n) = (id.hex_digits(), tpe.name_text());
    lemma_between("tpe "@ + n + " id `"@, h, "` is not warmed-up"@);
    lemma_between("tpe "@, n, " id `"@ + h + "` is not warmed-up"@);
    assert("tpe "@ + n + (" id `"@ + h + "` is not warmed-up"@) =~= messages.0@);
    lemma_between("Element tpe: "@ + n + ", id: "@, h, " does not exist in backend"@);
    lemma_between("Element tpe: "@, n, ", id: "@ + h + " does not exist in backend"@);
    assert("Element tpe: "@ + n + (", id: "@ + h + " does not exist in backend"@) =~= messages.1@);
    lemma_between("ID `"@, h, "` already exists."@);
    lemma_between("ID `"@, h, "` does not exist."@);
    let (b, t) = (blob.0.hex_digits(), blob_type.name_text());
    lemma_between("Blob `"@ + b + "` with type `"@, t, "` not found in index"@);
    lemma_between("Blob `"@, b, "` with type `"@ + t + "` not found in index"@);
    assert("Blob `"@ + b + ("` with type `"@ + t + "` not found in index"@) =~= messages.4@);
}

/// The message for a file that is too short tells the length of the file, then the length of the
/// read, then its position, each in its own place.
pub proof fn law_short_message_has_the_numbers(
    tpe: FileType,
    id: Id,
    file_length: usize,
    offset: u32,
    length: u32,
    path: String,
    cache_length: u64,
    messages: (String, String),
)
    requires
        call_ensures(
            RusticError::to_string,
            (&RusticError::ShortFile { tpe, id, file_length, offset, length },),
            messages.0,
        ),
        call_ensures(
            RusticError::to_string,
            (&RusticError::ShortCacheFile { path, file_length: cache_length, offset, length },),
            messages.1,
        ),
    ensures
        text::is_substring(
            messages.0@,
            "has `"@ + text::decimal(file_length as nat) + "` bytes. The read needs `"@
                + text::decimal(length as nat) + "` bytes at the offset `"@ + text::decimal(
                offset as nat,
            ) + "`"@,
        ),
        text::is_substring(
            messages.1@,
            "has `"@ + text::decimal(cache_length as nat) + "` bytes. The read needs `"@
                + text::decimal(length as nat) + "` bytes at the offset `"@ + text::decimal(
                offset as nat,
            ) + "`"@,
        ),
        text::is_substring(messages.0@, id.hex_digits()),
        text::is_substring(messages.1@, path@),
{
    reveal_strlit("` has `");
    reveal_strlit("has `");
    reveal_strlit("`.");
    reveal_strlit("`");
    reveal_strlit(".");
    reveal_strlit("` ");
    assert("` has `"@ =~= "` "@ + "has `"@);
    assert("`."@ =~= "`"@ + "."@);
    let (n, o) = (text::decimal(length as nat), text::decimal(offset as nat));
    let tail = "` bytes. The read needs `"@ + n + "` bytes at the offset `"@ + o + "`"@;
    let a = text::decimal(file_length as nat);
    let h = id.hex_digits();
    let start = "The `"@ + tpe.name_text() + "` file `"@;
    let middle = "has `"@ + a + "` bytes. The read needs `"@ + n + "` bytes at the offset `"@ + o
        + "`"@;
    assert(messages.0@ =~= (start + h + "` "@) + middle + "."@);
    lemma_between(start + h + "` "@, middle, "."@);
    assert(messages.0@ =~= start + h + ("` "@ + middle + "."@));
    lemma_between(start, h, "` "@ + middle + "."@);
    let b = text::decimal(cache_length as nat);
    let other = "has `"@ + b + "` bytes. The read needs `"@ + n + "` bytes at the offset `"@ + o
        + "`"@;
    assert(messages.1@ =~= ("The file at `"@ + path@ + "` "@) + other + "."@);
    lemma_between("The file at `"@ + path@ + "` "@, other, "."@);
    assert(messages.1@ =~= "The file at `"@ + path@ + ("` "@ + other + "."@));
    lemma_between("The file at `"@, path@, "` "@ + other + "."@);
}

/// The message of an injected fault names the operation, the file type and the ID of the call, or
/// `none` for a call without an ID.
pub proof fn law_injected_message_names_the_call(call: BackendCall, message: String)
    requires
        call_ensures(RusticError::to_string, (&RusticError::InjectedFault { call },), message),
    ensures
        text::is_substring(message@, "call `"@ + call.op.name_text() + "`"@),
        text::is_substring(message@, "file type `"@ + call.tpe.name_text() + "`"@),
        call.id is Some ==> text::is_substring(message@, call.id->0.hex_digits()),
        call.id is None ==> text::is_substring(message@, "none"@),
{
    reveal_strlit("Injected fault in the call `");
    reveal_strlit("Injected fault in the ");
    reveal_strlit("call `");
    reveal_strlit("` for the file type `");
    reveal_strlit("` for the ");
    reveal_strlit(" for the ");
    reveal_strlit("file type `");
    reveal_strlit("` and the ID `");
    reveal_strlit(" and the ID `");
    reveal_strlit("`");
    assert("Injected fault in the call `"@ =~= "Injected fault in the "@ + "call `"@);
    assert("` for the file type `"@ =~= "`"@ + " for the "@ + "file type `"@);
    assert("` and the ID `"@ =~= "`"@ + " and the ID `"@);
    let (o, t, i) = (call.op.name_text(), call.tpe.name_text(), call_id_text(call.id));
    let first = "call `"@ + o + "`"@;
    let second = "file type `"@ + t + "`"@;
    assert(message@ =~= "Injected fault in the "@ + first + (" for the "@ + second
        + " and the ID `"@ + i + "`."@));
    lemma_between(
        "Injected fault in the "@,
        first,
        " for the "@ + second + " and the ID `"@ + i + "`."@,
    );
    assert(message@ =~= ("Injected fault in the "@ + first + " for the "@) + second + (
    " and the ID `"@ + i + "`."@));
    lemma_between("Injected fault in the "@ + first + " for the "@, second, " and the ID `"@ + i
        + "`."@);
    assert(message@ =~= ("Injected fault in the "@ + first + " for the "@ + second
        + " and the ID `"@) + i + "`."@);
    lemma_between("Injected fault in the "@ + first + " for the "@ + second + " and the ID `"@, i, "`."@);
}

/// The message of a failed operation of a cache names the path of the operation. A failed move names
/// the path before the move, too.
pub proof fn law_cache_message_names_the_path(
    step: CacheStep,
    path: String,
    source: String,
    message: String,
)
    requires
        call_ensures(
            RusticError::to_string,
            (&RusticError::CacheFile { step, path, source },),
            message,
        ),
    ensures
        text::is_substring(message@, path@),
        step is Move ==> text::is_substring(message@, step->path_tmp@),
        step is Seek ==> text::is_substring(message@, text::decimal(step->Seek_offset as nat)),
        step is ReadPart ==> text::is_substring(
            message@,
            text::decimal(step->ReadPart_offset as nat),
        ),
{
    let m = message@;
    let end = match step {
        CacheStep::OpenForWrite | CacheStep::Write => "`."@,
        _ => "`"@,
    };
    let start = m.take(m.len() - path@.len() - end.len());
    assert(m =~= start + path@ + end);
    lemma_between(start, path@, end);
    match step {
        CacheStep::Move { path_tmp } => {
            let rest = "` to `"@ + path@ + "`"@;
            assert(m =~= "Failed to move `"@ + path_tmp@ + rest);
            lemma_between("Failed to move `"@, path_tmp@, rest);
        },
        CacheStep::Seek { offset } => {
            let rest = "` in file `"@ + path@ + "`"@;
            assert(m =~= "Failed to seek to `"@ + text::decimal(offset as nat) + rest);
            lemma_between("Failed to seek to `"@, text::decimal(offset as nat), rest);
        },
        CacheStep::ReadPart { offset } => {
            let rest = "` from file at `"@ + path@ + "`"@;
            assert(m =~= "Failed to read at offset `"@ + text::decimal(offset as nat) + rest);
            lemma_between("Failed to read at offset `"@, text::decimal(offset as nat), rest);
        },
        _ => {},
    }
}

} // verus!
