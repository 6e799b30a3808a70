//! The rules of the fault scenarios.
//!
//! A scenario passes only when its operation gives the expected result. The caller runs the
//! operation, and gives what it measured to the checks of this module.

use vstd::prelude::*;

use crate::error::{BackendCall, BackendOp};
use crate::fault::{Fault, INJECTED_FAULT};
use crate::file_type::FileType;
use crate::id::PackId;
use crate::sorted::{Order, SortedMap};
use crate::text::{self, decimal_text, owned, push_decimal, same_text};
use crate::tree_path::{self, TreePath};

verus! {

/// The number of reader threads that the scenarios for the stop after the first error set.
pub const READER_THREADS: usize = 4;

/// The number of tree loader threads of a prune. The channel from the loaders holds the same number
/// of trees.
pub const TREE_LOADERS: usize = 4;

/// The number of reader threads of a restore without an option for them.
pub const DEFAULT_READER_THREADS: usize = 20;

/// The minimum number of reader threads that shows the default of a restore.
pub const MINIMUM_DEFAULT_THREADS: usize = 4;

/// Part of the message of the error for a backend read that gives too few bytes.
pub const SHORT_READ: &'static str = "The read of";

/// Part of the message of the error for a file that is shorter than the read needs.
pub const SHORT_FILE: &'static str = "The read needs";

/// Whether `call` reads a part of a pack file.
pub open spec fn reads_pack(call: BackendCall) -> bool {
    call.op is ReadPartial && call.tpe is Pack
}

/// Tells if `call` reads a part of a pack file.
///
/// A restore reads the content of files in this way, and a prune reads trees in this way.
pub fn is_pack_read(call: &BackendCall) -> (r: bool)
    ensures
        r == reads_pack(*call),
{
    call.op == BackendOp::ReadPartial && call.tpe == FileType::Pack
}

/// Gives the fault for `call` of a scenario that injects `fault` into each pack read.
pub fn pack_fault(call: &BackendCall, fault: Fault) -> (r: Option<Fault>)
    ensures
        r == if reads_pack(*call) {
            Some(fault)
        } else {
            None
        },
{
    if is_pack_read(call) {
        Some(fault)
    } else {
        None
    }
}

/// A scenario that injects a fault into each pack read of a restore.
#[derive(Debug, Clone, Copy)]
pub struct PackReadScenario {
    /// The seed of the content of the saved file.
    pub seed: u64,
    /// The fault.
    pub fault: Fault,
    /// Part of the message of the error that the restore gives.
    pub expected: &'static str,
}

/// The number of bytes of the saved file of a [`PackReadScenario`].
pub const PACK_READ_SIZE: usize = 300_000;

/// Gives the scenario for a restore whose pack reads have the fault `fault`.
///
/// A read that fails gives its own error. A read that gives corrupt data gives the error of the
/// decryption. A read that gives too few bytes gives the error of the short read: the restore uses
/// the data of a read up to the full length, so the backend checks the length.
pub fn pack_read_scenario(fault: Fault) -> (r: PackReadScenario)
    ensures
        r.fault == fault,
        match fault {
            Fault::Error => r.seed == 3 && r.expected@ == INJECTED_FAULT@,
            Fault::Truncate => r.seed == 10 && r.expected@ == SHORT_READ@,
            Fault::Corrupt => r.seed == 4 && r.expected@ == "Data decryption failed"@,
        },
{
    match fault {
        Fault::Error => PackReadScenario { seed: 3, fault, expected: INJECTED_FAULT },
        Fault::Truncate => PackReadScenario { seed: 10, fault, expected: SHORT_READ },
        Fault::Corrupt => PackReadScenario { seed: 4, fault, expected: "Data decryption failed" },
    }
}

/// Checks that a restore with `threads` reader threads stopped its reads after the first error.
///
/// Each read of the restore fails. A reader thread stores or finds the first error before it takes
/// its next task, and that task stops before its read. So each reader thread reads at most one time.
///
/// # Errors
///
/// * If the snapshot uses too few packs for the check.
/// * If the restore read more packs than it has reader threads.
pub fn stops_after_first_error(packs: usize, reads: usize, threads: usize) -> (r: Result<
    (),
    String,
>)
    ensures
        r is Ok <==> packs > threads && reads <= threads,
        r matches Err(message) ==> message@ == if packs <= threads {
            "The snapshot uses "@ + text::decimal(packs as nat)
                + " packs. The check needs more than "@ + text::decimal(threads as nat) + " packs."@
        } else {
            "The restore read "@ + text::decimal(reads as nat) + " of "@ + text::decimal(
                packs as nat,
            ) + " packs. The maximum is "@ + text::decimal(threads as nat) + " reads."@
        },
{
    if packs <= threads {
        let mut out = owned("The snapshot uses ");
        push_decimal(&mut out, packs as u64);
        out.append(" packs. The check needs more than ");
        push_decimal(&mut out, threads as u64);
        out.append(" packs.");
        return Err(out);
    }
    if reads > threads {
        let mut out = owned("The restore read ");
        push_decimal(&mut out, reads as u64);
        out.append(" of ");
        push_decimal(&mut out, packs as u64);
        out.append(" packs. The maximum is ");
        push_decimal(&mut out, threads as u64);
        out.append(" reads.");
        return Err(out);
    }
    Ok(())
}

/// A file of a snapshot, with the place of its first blob.
#[derive(Debug)]
pub struct FileBlob {
    /// The path of the file.
    pub path: TreePath,
    /// The pack of the blob.
    pub pack: PackId,
    /// The position of the blob in the pack.
    pub offset: u32,
}

/// Whether the blob with the index `last` is the last blob with the highest offset.
pub open spec fn is_last_blob(blobs: Seq<FileBlob>, last: int) -> bool {
    &&& 0 <= last < blobs.len()
    &&& forall|i: int| 0 <= i < last ==> (#[trigger] blobs[i]).offset <= blobs[last].offset
    &&& forall|i: int| last < i < blobs.len() ==> (#[trigger] blobs[i]).offset < blobs[last].offset
}

/// Whether each blob is in the pack `pack`.
pub open spec fn share_pack(blobs: Seq<FileBlob>, pack: PackId) -> bool {
    forall|i: int| 0 <= i < blobs.len() ==> (#[trigger] blobs[i]).pack == pack
}

/// Gives the index of the file whose blob has the highest offset in the pack of all blobs.
///
/// A restore with one reader thread starts one write task for each blob, in the order of the
/// offsets, and runs them in the reverse order. So the write of this file runs first.
///
/// # Arguments
///
/// * `blobs` - The files of the snapshot
/// * `files` - The number of saved files
///
/// # Errors
///
/// * If the snapshot has no file.
/// * If the blobs of all files are not in one pack.
pub fn last_blob(blobs: &Vec<FileBlob>, files: usize) -> (r: Result<usize, String>)
    ensures
        match r {
            Ok(last) => is_last_blob(blobs@, last as int) && blobs@.len() == files && share_pack(
                blobs@,
                blobs@[last as int].pack,
            ),
            Err(message) => if blobs@.len() == 0 {
                message@ == "the snapshot has no file"@
            } else {
                message@ == "The check needs the blobs of all files in one pack."@ && (blobs@.len()
                    != files || exists|i: int, j: int|
                    0 <= i < blobs@.len() && 0 <= j < blobs@.len() && (#[trigger] blobs@[i]).pack
                        != (#[trigger] blobs@[j]).pack)
            },
        },
{
    let n: usize = blobs.len();
    if n == 0 {
        return Err(owned("the snapshot has no file"));
    }
    let mut last: usize = 0;
    for i in 1..n
        invariant
            n == blobs.len(),
            last < i,
            forall|j: int| 0 <= j < last ==> (#[trigger] blobs@[j]).offset <= blobs@[last as int].offset,
            forall|j: int|
                last < j < i ==> (#[trigger] blobs@[j]).offset < blobs@[last as int].offset,
    {
        if blobs[i].offset >= blobs[last].offset {
            last = i;
        }
    }
    let pack = blobs[last].pack;
    let mut one_pack = true;
    for i in 0..n
        invariant
            n == blobs.len(),
            last < n,
            pack == blobs@[last as int].pack,
            one_pack ==> forall|j: int| 0 <= j < i ==> (#[trigger] blobs@[j]).pack == pack,
            !one_pack ==> exists|j: int, k: int|
                0 <= j < n && 0 <= k < n && (#[trigger] blobs@[j]).pack != (
                #[trigger] blobs@[k]).pack,
    {
        if blobs[i].pack != pack {
            assert(blobs@[i as int].pack != blobs@[last as int].pack);
            one_pack = false;
        }
    }
    if n != files || !one_pack {
        return Err(owned("The check needs the blobs of all files in one pack."));
    }
    Ok(last)
}

/// The message for a file that the restore created after the write of another file failed.
pub open spec fn created_text(path: Seq<Seq<char>>, last: Seq<Seq<char>>) -> Seq<char> {
    "The restore created `"@ + TreePath::path_text(path) + "` after the write of `"@
        + TreePath::path_text(last) + "` failed."@
}

/// Whether one of the files with another path than the file with the index `last` was created.
pub open spec fn creates_other(blobs: Seq<FileBlob>, last: int, created: Seq<bool>) -> bool {
    exists|i: int|
        0 <= i < blobs.len() && (#[trigger] blobs[i]).path@ != blobs[last].path@ && created[i]
}

/// Checks that the restore created none of the files but the file with the index `last`.
///
/// # Arguments
///
/// * `blobs` - The files of the snapshot
/// * `last` - The index of the file whose write failed
/// * `created` - Whether each file exists after the restore
///
/// # Errors
///
/// * If the restore created one of the other files. The error names the first.
pub fn write_stops_after_first_error(blobs: &Vec<FileBlob>, last: usize, created: &Vec<bool>) -> (r:
    Result<(), String>)
    requires
        last < blobs.len(),
        created.len() == blobs.len(),
    ensures
        r is Ok <==> forall|i: int|
            0 <= i < blobs.len() && (#[trigger] blobs@[i]).path@ != blobs@[last as int].path@
                ==> !created@[i],
        r is Err <==> creates_other(blobs@, last as int, created@),
        r matches Err(message) ==> exists|i: int|
            {
                &&& 0 <= i < blobs.len()
                &&& (#[trigger] blobs@[i]).path@ != blobs@[last as int].path@
                &&& created@[i]
                &&& message@ == created_text(blobs@[i].path@, blobs@[last as int].path@)
                &&& forall|j: int|
                    0 <= j < i && (#[trigger] blobs@[j]).path@ != blobs@[last as int].path@
                        ==> !created@[j]
            },
{
    let n: usize = blobs.len();
    for i in 0..n
        invariant
            n == blobs.len(),
            last < n,
            created.len() == n,
            forall|j: int|
                0 <= j < i && (#[trigger] blobs@[j]).path@ != blobs@[last as int].path@
                    ==> !created@[j],
    {
        proof {
            crate::tree_path::lemma_orders();
        }
        let other = match blobs[i].path.order_to(&blobs[last].path) {
            Order::Same => false,
            Order::Before | Order::After => true,
        };
        assert(other == (blobs@[i as int].path@ != blobs@[last as int].path@));
        if other && created[i] {
            let mut out = owned("The restore created `");
            out.append(blobs[i].path.display().as_str());
            out.append("` after the write of `");
            out.append(blobs[last].path.display().as_str());
            out.append("` failed.");
            assert(out@ =~= created_text(blobs@[i as int].path@, blobs@[last as int].path@));
            return Err(out);
        }
    }
    Ok(())
}

/// The text of the number of threads and of overlapping reads.
pub open spec fn threads_text(readers: nat, most: nat) -> Seq<char> {
    text::decimal(readers) + " threads read packs, and "@ + text::decimal(most)
        + " reads overlapped. "@
}

/// Gives the text of the number of threads and of overlapping reads.
fn describe_threads(readers: usize, most: usize) -> (r: String)
    ensures
        r@ == threads_text(readers as nat, most as nat),
{
    let mut out = decimal_text(readers as u64);
    out.append(" threads read packs, and ");
    push_decimal(&mut out, most as u64);
    out.append(" reads overlapped. ");
    out
}

/// Checks that a restore used at most `maximum` threads for its pack reads.
///
/// # Errors
///
/// * If more than `maximum` threads read packs, or more than `maximum` reads overlapped.
pub fn check_reader_threads(readers: usize, most: usize, maximum: usize) -> (r: Result<(), String>)
    ensures
        r is Ok <==> readers <= maximum && most <= maximum,
        r matches Err(message) ==> message@ == threads_text(readers as nat, most as nat)
            + "The maximum is "@ + text::decimal(maximum as nat) + "."@,
{
    if readers > maximum || most > maximum {
        let mut out = describe_threads(readers, most);
        out.append("The maximum is ");
        push_decimal(&mut out, maximum as u64);
        out.append(".");
        Err(out)
    } else {
        Ok(())
    }
}

/// Checks that a restore used the default number of threads for its pack reads.
///
/// # Errors
///
/// * If fewer than [`MINIMUM_DEFAULT_THREADS`] or more than [`DEFAULT_READER_THREADS`] threads read
///   packs, or more than [`DEFAULT_READER_THREADS`] reads overlapped.
pub fn check_default_reader_threads(readers: usize, most: usize) -> (r: Result<(), String>)
    ensures
        r is Ok <==> MINIMUM_DEFAULT_THREADS <= readers <= DEFAULT_READER_THREADS && most
            <= DEFAULT_READER_THREADS,
        r matches Err(message) ==> message@ == threads_text(readers as nat, most as nat)
            + "The default needs at least "@ + text::decimal(MINIMUM_DEFAULT_THREADS as nat)
            + " and at most "@ + text::decimal(DEFAULT_READER_THREADS as nat) + " threads."@,
{
    if readers < MINIMUM_DEFAULT_THREADS || readers > DEFAULT_READER_THREADS || most
        > DEFAULT_READER_THREADS {
        let mut out = describe_threads(readers, most);
        out.append("The default needs at least ");
        push_decimal(&mut out, MINIMUM_DEFAULT_THREADS as u64);
        out.append(" and at most ");
        push_decimal(&mut out, DEFAULT_READER_THREADS as u64);
        out.append(" threads.");
        Err(out)
    } else {
        Ok(())
    }
}

/// The pack reads of the threads of a restore.
#[derive(Debug)]
pub struct ReaderThreads {
    readers: SortedMap<u64, ()>,
    in_flight: usize,
    most: usize,
}

/// What a [`ReaderThreads`] counted.
pub ghost struct ReaderCounts {
    /// The threads that read packs.
    pub readers: Set<u64>,
    /// The number of reads that run now.
    pub in_flight: nat,
    /// The maximum number of reads that overlapped.
    pub most: nat,
}

impl View for ReaderThreads {
    type V = ReaderCounts;

    closed spec fn view(&self) -> ReaderCounts {
        ReaderCounts {
            readers: self.readers@.dom(),
            in_flight: self.in_flight as nat,
            most: self.most as nat,
        }
    }
}

impl ReaderThreads {
    /// Creates the value without reads.
    pub fn new() -> (r: Self)
        ensures
            r@.readers == Set::<u64>::empty(),
            r@.in_flight == 0,
            r@.most == 0,
    {
        let r = ReaderThreads { readers: SortedMap::new(), in_flight: 0, most: 0 };
        assert(r@.readers =~= Set::empty());
        r
    }

    /// Starts a call of the thread `current`, if it is a pack read of another thread than `caller`.
    ///
    /// The thread that calls the restore reads the trees of the snapshot from pack files, but no
    /// file contents.
    ///
    /// # Returns
    ///
    /// Whether the call counts. Then the caller waits, so that reads overlap, and ends the call.
    pub fn begin(&mut self, call: &BackendCall, current: u64, caller: u64) -> (r: bool)
        requires
            old(self)@.in_flight < usize::MAX,
        ensures
            r == (reads_pack(*call) && current != caller),
            !r ==> final(self)@ == old(self)@,
            r ==> {
                &&& final(self)@.readers == old(self)@.readers.insert(current)
                &&& final(self)@.in_flight == old(self)@.in_flight + 1
                &&& final(self)@.most == if old(self)@.in_flight + 1 > old(self)@.most {
                    old(self)@.in_flight + 1
                } else {
                    old(self)@.most
                }
            },
    {
        if !is_pack_read(call) || current == caller {
            return false;
        }
        let _ = self.readers.insert(current, ());
        assert(self@.readers =~= old(self)@.readers.insert(current));
        self.in_flight = self.in_flight + 1;
        if self.in_flight > self.most {
            self.most = self.in_flight;
        }
        true
    }

    /// Ends a call that counts.
    pub fn end(&mut self)
        requires
            old(self)@.in_flight > 0,
        ensures
            final(self)@.in_flight == old(self)@.in_flight - 1,
            final(self)@.readers == old(self)@.readers,
            final(self)@.most == old(self)@.most,
    {
        self.in_flight = self.in_flight - 1;
    }

    /// Gives the maximum number of reads that overlapped.
    pub fn most(&self) -> (r: usize)
        ensures
            r == self@.most,
    {
        self.most
    }

    /// Gives the number of threads that read packs.
    pub fn readers(&self) -> (r: usize)
        ensures
            r == self@.readers.len(),
    {
        self.readers.len()
    }
}

/// The maximum number of trees that a prune reads after the first error.
///
/// Each loader thread holds one tree while it waits to send it, and the channel holds as many trees
/// again. The prune takes one tree out of the channel, which lets one more loader send and read
/// again.
pub open spec fn prune_read_bound() -> int {
    2 * TREE_LOADERS + 2
}

/// Checks that a prune stopped its reads after the first error.
///
/// # Errors
///
/// * If the prune read more trees than the loaders and their channel hold.
pub fn prune_stops_after_first_error(reads: usize, trees: usize) -> (r: Result<(), String>)
    ensures
        r is Ok <==> reads <= prune_read_bound(),
        r matches Err(message) ==> message@ == "The prune read "@ + text::decimal(reads as nat)
            + " of "@ + text::decimal(trees as nat) + " trees. The maximum is "@ + text::decimal(
            prune_read_bound() as nat,
        ) + " reads."@,
{
    let maximum: usize = 2 * TREE_LOADERS + 2;
    if reads > maximum {
        let mut out = owned("The prune read ");
        push_decimal(&mut out, reads as u64);
        out.append(" of ");
        push_decimal(&mut out, trees as u64);
        out.append(" trees. The maximum is ");
        push_decimal(&mut out, maximum as u64);
        out.append(" reads.");
        Err(out)
    } else {
        Ok(())
    }
}

/// Checks that no thread panicked while a prune stopped.
///
/// # Errors
///
/// * If there are more panics than before the prune.
pub fn check_prune_panics(before: u64, now: u64) -> (r: Result<(), String>)
    requires
        before <= now,
    ensures
        r is Ok <==> now == before,
        r matches Err(message) ==> message@ == text::decimal((now - before) as nat)
            + " threads panicked while the prune stopped."@,
{
    let new: u64 = now - before;
    if new > 0 {
        let mut out = decimal_text(new);
        out.append(" threads panicked while the prune stopped.");
        Err(out)
    } else {
        Ok(())
    }
}

/// Checks that a failed backup wrote no snapshot file.
///
/// # Errors
///
/// * If the backend holds a snapshot file.
pub fn expect_no_snapshot(snapshots: usize) -> (r: Result<(), String>)
    ensures
        r is Ok <==> snapshots == 0,
        r matches Err(message) ==> message@ == "The failed backup wrote "@ + text::decimal(
            snapshots as nat,
        ) + " snapshot files."@,
{
    if snapshots == 0 {
        Ok(())
    } else {
        let mut out = owned("The failed backup wrote ");
        push_decimal(&mut out, snapshots as u64);
        out.append(" snapshot files.");
        Err(out)
    }
}

/// Whether the last component of `path` is `b`.
pub open spec fn ends_with_b(path: Seq<Seq<char>>) -> bool {
    path.len() > 0 && path.last() == "b"@
}

/// Whether the last component of one of `paths` is `b`.
pub open spec fn has_b(paths: Seq<Seq<Seq<char>>>) -> bool {
    exists|i: int| 0 <= i < paths.len() && ends_with_b(#[trigger] paths[i])
}

/// Checks that a backup skipped the unreadable file `b`, and wrote its snapshot file.
///
/// # Arguments
///
/// * `names` - The paths of the snapshot
/// * `snapshots` - The number of snapshot files
///
/// # Errors
///
/// * If the snapshot contains the unreadable file.
/// * If the backend does not hold one snapshot file.
pub fn skips_unreadable_file(names: &Vec<TreePath>, snapshots: usize) -> (r: Result<(), String>)
    ensures
        ({
            let contains = exists|i: int| 0 <= i < names.len() && ends_with_b(
                (#[trigger] names@[i])@,
            );
            &&& r is Ok <==> !contains && snapshots == 1
            &&& r matches Err(message) ==> message@ == if contains {
                "The snapshot contains the unreadable file `b`."@
            } else {
                "The backend does not hold one snapshot file."@
            }
        }),
        r is Ok <==> !has_b(tree_path::paths_of(names@)) && snapshots == 1,
{
    let ghost paths = tree_path::paths_of(names@);
    let n: usize = names.len();
    for i in 0..n
        invariant
            n == names.len(),
            paths == tree_path::paths_of(names@),
            forall|j: int| 0 <= j < i ==> !ends_with_b((#[trigger] names@[j])@),
            forall|j: int| 0 <= j < i ==> !ends_with_b(#[trigger] paths[j]),
    {
        let parts = &names[i].parts;
        if parts.len() > 0 && same_text(parts[parts.len() - 1].as_str(), "b") {
            assert(ends_with_b(names@[i as int]@));
            assert(ends_with_b(paths[i as int]));
            return Err(owned("The snapshot contains the unreadable file `b`."));
        }
    }
    if snapshots != 1 {
        return Err(owned("The backend does not hold one snapshot file."));
    }
    Ok(())
}

/// The maximum number of files that a backup with `threads` threads reads after the first error.
///
/// The parallel map has a buffer of two items for each thread. The readahead thread holds one more
/// item, and the source can give one more item while the first error is stored.
pub open spec fn backup_read_bound(threads: nat) -> nat {
    2 * threads + 2
}

/// Gives the maximum number of files that a backup with `threads` threads reads after the first
/// error, and the number of files that the source has after the first file.
pub fn backup_bounds(threads: usize) -> (r: (usize, usize))
    requires
        10 * backup_read_bound(threads as nat) <= usize::MAX,
    ensures
        r.0 == backup_read_bound(threads as nat),
        r.1 == 10 * backup_read_bound(threads as nat),
{
    let bound: usize = 2 * threads + 2;
    (bound, 10 * bound)
}

/// Checks that a backup stopped reading its source after the first error.
///
/// # Arguments
///
/// * `bytes` - The number of bytes that the backup read
/// * `size` - The size of each file
/// * `later` - The number of files after the first file
/// * `bound` - The maximum number of files that the backup may read
///
/// # Errors
///
/// * If the backup read more files than the bound.
pub fn backup_stops_after_first_error(bytes: u64, size: u64, later: u64, bound: u64) -> (r: Result<
    (),
    String,
>)
    requires
        size > 0,
    ensures
        r is Ok <==> bytes / size <= bound,
        r matches Err(message) ==> message@ == "The backup read "@ + text::decimal(
            (bytes / size) as nat,
        ) + " of "@ + text::decimal(later as nat)
            + " files after the first error. The bound is "@ + text::decimal(bound as nat) + "."@,
{
    let read: u64 = bytes / size;
    if read > bound {
        let mut out = owned("The backup read ");
        push_decimal(&mut out, read);
        out.append(" of ");
        push_decimal(&mut out, later);
        out.append(" files after the first error. The bound is ");
        push_decimal(&mut out, bound);
        out.append(".");
        Err(out)
    } else {
        Ok(())
    }
}

/// A restore whose metadata step fails in one operation.
#[derive(Debug, Clone, Copy, PartialEq, Eq, Structural)]
pub enum MetadataCase {
    /// The restore cannot set the owner of a file.
    Ownership,
    /// The restore cannot set the permissions of a file.
    Permission,
    /// The restore cannot set an extended attribute.
    ExtendedAttributes,
    /// The restore cannot set the times of a file.
    Times,
}

impl MetadataCase {
    /// Part of the message of the error that the case gives.
    pub open spec fn expected_text(self) -> Seq<char> {
        match self {
            MetadataCase::Ownership => "cannot set the owner"@,
            MetadataCase::Permission => "cannot set the permissions"@,
            MetadataCase::ExtendedAttributes => "cannot set the extended attributes"@,
            MetadataCase::Times => "cannot set the times"@,
        }
    }

    /// Gives part of the message of the error that the case gives.
    pub fn expected(self) -> (r: &'static str)
        ensures
            r@ == self.expected_text(),
    {
        match self {
            MetadataCase::Ownership => "cannot set the owner",
            MetadataCase::Permission => "cannot set the permissions",
            MetadataCase::ExtendedAttributes => "cannot set the extended attributes",
            MetadataCase::Times => "cannot set the times",
        }
    }

    /// Checks that a restore of the case without the option succeeded.
    ///
    /// # Errors
    ///
    /// * If the restore failed.
    pub fn errors_are_warnings(self, result: Result<(), String>) -> (r: Result<(), String>)
        ensures
            match (result, r) {
                (Ok(_), _) => r is Ok,
                (Err(err), Err(message)) => message@ == "The case for `"@ + self.expected_text()
                    + "` failed without the option:\n"@ + err@,
                (Err(_), Ok(_)) => false,
            },
    {
        match result {
            Ok(()) => Ok(()),
            Err(err) => {
                let mut out = owned("The case for `");
                out.append(self.expected());
                out.append("` failed without the option:\n");
                out.append(err.as_str());
                Err(out)
            },
        }
    }
}

/// A call is a pack read exactly if it reads a part of a pack, whatever the ID of the pack is. Only
/// pack reads get the fault of a scenario, and each of them gets it.
pub proof fn law_pack_reads_get_the_fault(
    call: BackendCall,
    fault: Fault,
    is_read: bool,
    r: Option<Fault>,
)
    requires
        call_ensures(is_pack_read, (&call,), is_read),
        call_ensures(pack_fault, (&call, fault), r),
    ensures
        is_read <==> call.op == BackendOp::ReadPartial && call.tpe == FileType::Pack,
        r is Some <==> is_read,
        r is Some ==> r == Some(fault),
{
}

/// The last blob has the highest offset, and no later blob has the same offset. It is given exactly
/// if there are blobs, one for each saved file, and all in one pack.
pub proof fn law_last_blob_has_the_highest_offset(
    blobs: Vec<FileBlob>,
    files: usize,
    r: Result<usize, String>,
    i: int,
)
    requires
        call_ensures(last_blob, (&blobs, files), r),
        0 <= i < blobs.len(),
    ensures
        r is Ok ==> r->Ok_0 < blobs.len(),
        r is Ok ==> blobs@[i].offset <= blobs@[r->Ok_0 as int].offset,
        r is Ok && i > r->Ok_0 ==> blobs@[i].offset < blobs@[r->Ok_0 as int].offset,
        r is Ok ==> blobs@[i].pack == blobs@[r->Ok_0 as int].pack,
        r is Ok ==> blobs.len() == files,
        blobs.len() != files ==> r is Err,
        blobs.len() == files && (forall|j: int|
            0 <= j < blobs.len() ==> (#[trigger] blobs@[j]).pack == blobs@[i].pack) ==> r is Ok,
{
}

/// A started pack read of a thread of the restore runs, and the thread is a reader from then on. The
/// maximum of overlapping reads is at least the number of running reads, and grows only to it. Other
/// calls, and calls of the thread that called the restore, change nothing.
pub proof fn law_overlapping_reads_are_counted(
    threads: &mut ReaderThreads,
    call: BackendCall,
    current: u64,
    caller: u64,
    r: bool,
    other: u64,
)
    requires
        call_ensures(ReaderThreads::begin, (threads, &call, current, caller), r),
        old(threads)@.in_flight <= old(threads)@.most,
    ensures
        r <==> call.op == BackendOp::ReadPartial && call.tpe == FileType::Pack && current != caller,
        r ==> {
            &&& final(threads)@.in_flight == old(threads)@.in_flight + 1
            &&& final(threads)@.most >= final(threads)@.in_flight
            &&& final(threads)@.most >= old(threads)@.most
            &&& final(threads)@.most == old(threads)@.most || final(threads)@.most
                == final(threads)@.in_flight
            &&& final(threads)@.readers.contains(other) <==> other == current || old(
                threads,
            )@.readers.contains(other)
        },
        !r ==> final(threads)@ == old(threads)@,
{
}

/// A prune with four loaders may read ten trees after the first error: one for each loader, four in
/// the channel, and two more. A backup may read two files for each thread and two more, and its source
/// has ten times as many files.
pub proof fn law_read_bounds(
    reads: usize,
    trees: usize,
    prune: Result<(), String>,
    threads: usize,
    bounds: (usize, usize),
)
    requires
        call_ensures(prune_stops_after_first_error, (reads, trees), prune),
        call_ensures(backup_bounds, (threads,), bounds),
    ensures
        prune is Ok <==> reads <= 10,
        bounds.0 == 2 * threads + 2,
        bounds.1 == 10 * bounds.0,
{
}

/// The check of a restore passes if there are more packs than reader threads, and each reader thread
/// read at most once. One read more, or as few packs as threads, is an error.
pub proof fn law_restore_reads_at_most_once_per_thread(
    packs: usize,
    reads: usize,
    threads: usize,
    r: Result<(), String>,
)
    requires
        call_ensures(stops_after_first_error, (packs, reads, threads), r),
    ensures
        packs > threads && reads <= threads ==> r is Ok,
        reads >= threads + 1 ==> r is Err,
        packs <= threads ==> r is Err,
{
}

/// A restore with a number of threads uses at most this number for its reads, and at most this number
/// of reads overlap. A restore without a number uses 4 to 20 threads, and at most 20 reads overlap.
pub proof fn law_reader_threads_have_limits(
    readers: usize,
    most: usize,
    maximum: usize,
    r: Result<(), String>,
    default: Result<(), String>,
)
    requires
        call_ensures(check_reader_threads, (readers, most, maximum), r),
        call_ensures(check_default_reader_threads, (readers, most), default),
    ensures
        readers > maximum || most > maximum ==> r is Err,
        readers <= maximum && most <= maximum ==> r is Ok,
        readers < 4 || readers > 20 || most > 20 ==> default is Err,
        4 <= readers && readers <= 20 && most <= 20 ==> default is Ok,
{
}

/// The checks for a prune without panics and for a failed backup without a snapshot pass exactly if
/// there is none.
pub proof fn law_none_are_expected(
    before: u64,
    now: u64,
    panics: Result<(), String>,
    snapshots: usize,
    none: Result<(), String>,
)
    requires
        call_ensures(check_prune_panics, (before, now), panics),
        call_ensures(expect_no_snapshot, (snapshots,), none),
        before <= now,
    ensures
        panics is Ok ==> now == before,
        now == before ==> panics is Ok,
        none is Ok ==> snapshots == 0,
        snapshots == 0 ==> none is Ok,
{
}

/// The check of a backup that skips the file `b` fails if a path of the snapshot has `b` as its last
/// component, at each depth. It passes if there is no such path, and one snapshot file.
pub proof fn law_skipped_file_is_not_in_the_snapshot(
    names: Vec<TreePath>,
    snapshots: usize,
    r: Result<(), String>,
    i: int,
)
    requires
        call_ensures(skips_unreadable_file, (&names, snapshots), r),
        0 <= i < names.len(),
    ensures
        names@[i]@.len() > 0 && names@[i]@.last() == seq!['b'] ==> r is Err,
        snapshots != 1 ==> r is Err,
        snapshots == 1 && (forall|j: int|
            0 <= j < names.len() ==> (#[trigger] names@[j])@.len() == 0 || names@[j]@.last()
                != seq!['b']) ==> r is Ok,
{
    reveal_strlit("b");
    assert("b"@ =~= seq!['b']);
    let path = tree_path::paths_of(names@)[i];
    assert(path == names@[i]@);
    if path.len() > 0 && path.last() =~= seq!['b'] {
        assert(ends_with_b(path));
        assert(has_b(tree_path::paths_of(names@)));
    }
}

/// A backup stopped in time exactly if it read fewer bytes than one file more than the bound has.
pub proof fn law_backup_reads_up_to_the_bound(
    bytes: u64,
    size: u64,
    later: u64,
    bound: u64,
    r: Result<(), String>,
)
    requires
        size > 0,
        call_ensures(backup_stops_after_first_error, (bytes, size, later, bound), r),
    ensures
        r is Ok <==> bytes < (bound + 1) * size,
{
    let read = bytes as int / size as int;
    vstd::arithmetic::div_mod::lemma_fundamental_div_mod(bytes as int, size as int);
    let rest = bytes as int % size as int;
    assert(0 <= rest < size);
    if read <= bound {
        assert(bytes < (bound + 1) * size) by (nonlinear_arith)
            requires
                bytes as int == size as int * read + rest,
                rest < size,
                read <= bound,
                size > 0,
        ;
    } else {
        assert(bytes >= (bound + 1) * size) by (nonlinear_arith)
            requires
                bytes as int == size as int * read + rest,
                rest >= 0,
                read >= bound + 1,
                size > 0,
        ;
    }
}

/// Each fault of a pack read has its own scenario, with its own data and its own expected error.
pub proof fn law_pack_read_scenarios_differ(
    a: Fault,
    x: PackReadScenario,
    b: Fault,
    y: PackReadScenario,
)
    requires
        call_ensures(pack_read_scenario, (a,), x),
        call_ensures(pack_read_scenario, (b,), y),
        a != b,
    ensures
        x.fault == a,
        x.seed != y.seed,
        x.expected@ != y.expected@,
{
    reveal_strlit("Injected fault");
    reveal_strlit("The read of");
    reveal_strlit("Data decryption failed");
    assert(x.expected@.len() != y.expected@.len());
}

/// Without the option, a restore of a case must succeed: its error is an error of the check, and has
/// the text of the error in it.
pub proof fn law_case_without_the_option_succeeds(
    case: MetadataCase,
    result: Result<(), String>,
    r: Result<(), String>,
)
    requires
        call_ensures(MetadataCase::errors_are_warnings, (case, result), r),
    ensures
        result is Ok <==> r is Ok,
        result is Err ==> text::is_substring(r->Err_0@, result->Err_0@),
{
    if result is Err {
        let err = result->Err_0@;
        let message = r->Err_0@;
        let at = message.len() - err.len();
        assert(message =~= (message.take(at) + err) + Seq::empty());
        text::lemma_substring(message, err);
    }
}

/// The check of the writes of a restore passes exactly if the restore created no file but the one whose
/// write failed, and files with its path.
pub proof fn law_only_the_failed_file_is_created(
    blobs: Vec<FileBlob>,
    last: usize,
    created: Vec<bool>,
    r: Result<(), String>,
    i: int,
)
    requires
        call_ensures(write_stops_after_first_error, (&blobs, last, &created), r),
        last < blobs.len(),
        created.len() == blobs.len(),
        0 <= i < blobs.len(),
    ensures
        created@[i] && blobs@[i].path@ != blobs@[last as int].path@ ==> r is Err,
        (forall|j: int| 0 <= j < created.len() && j != last ==> !#[trigger] created@[j]) ==> r is Ok,
{
    if created@[i] && blobs@[i].path@ != blobs@[last as int].path@ {
        assert(creates_other(blobs@, last as int, created@));
    }
}

} // verus!
