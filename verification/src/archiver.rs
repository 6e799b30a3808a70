//! The decisions of a backup.
//!
//! A backup reads the entries of a source, compares them with a parent snapshot, archives the files
//! in parallel, and adds the results to trees. The caller runs these stages. An [`Archiver`]
//! decides what the result of each stage means: an entry goes to the next stage, or the backup
//! skips it, or the backup stops. After the last entry, it decides the steps that complete the
//! backup.

use jiff::Zoned;
use vstd::prelude::*;

use crate::error::{RusticError, RusticResult};
use crate::id::{SnapshotId, TreeId};
use crate::text::{self, same_text};

verus! {

/// The type [`jiff::Zoned`]: a time with its time zone. The backup only carries it.
#[verifier::external_type_specification]
#[verifier::external_body]
pub struct ExZoned(Zoned);

/// The tree stack of the parent snapshot is empty.
#[derive(Debug, Clone, Copy, PartialEq, Eq, Structural)]
pub struct TreeStackEmptyError;

/// Keeps the first error of the entries of a backup.
#[derive(Debug)]
pub struct FirstError {
    /// The first error.
    pub error: Option<RusticError>,
}

impl FirstError {
    /// Creates the value without an error.
    pub fn new() -> (r: Self)
        ensures
            r.error is None,
    {
        FirstError { error: None }
    }

    /// Tells if there is an error.
    pub fn is_set(&self) -> (r: bool)
        ensures
            r == (self.error is Some),
    {
        self.error.is_some()
    }

    /// Keeps `err`, if there is no earlier error.
    pub fn store(&mut self, err: RusticError)
        ensures
            final(self).error == first_of(old(self).error, err),
    {
        if self.error.is_none() {
            self.error = Some(err);
        }
    }

    /// Gives the first error.
    ///
    /// # Errors
    ///
    /// * The first error, if there is one.
    pub fn into_result(self) -> (r: RusticResult<()>)
        ensures
            r == match self.error {
                Some(err) => Err(err),
                None => Ok(()),
            },
    {
        match self.error {
            Some(err) => Err(err),
            None => Ok(()),
        }
    }
}

/// The first error of `first` and the later error `err`.
pub open spec fn first_of(first: Option<RusticError>, err: RusticError) -> Option<RusticError> {
    match first {
        Some(first) => Some(first),
        None => Some(err),
    }
}

/// The name of the root component of an absolute path.
pub const ROOT: &'static str = "/";

/// The path `name` below the path `base`. An absolute `name` replaces `base`.
pub open spec fn below(base: Seq<Seq<char>>, name: Seq<Seq<char>>) -> Seq<Seq<char>> {
    if name.len() > 0 && name[0] == ROOT@ {
        name
    } else {
        base + name
    }
}

/// Whether the path `path` has a directory: it is not empty, and not the root.
pub open spec fn has_parent(path: Seq<Seq<char>>) -> bool {
    path.len() > 0 && path.last() != ROOT@
}

/// The path in the snapshot of the entry with the path `path`: below `as_path` in place of
/// `backup_path`, if there is an `as_path`.
pub open spec fn snapshot_path(
    path: Seq<Seq<char>>,
    backup_path: Seq<Seq<char>>,
    as_path: Option<Seq<Seq<char>>>,
) -> Seq<Seq<char>> {
    match as_path {
        Some(as_path) => below(as_path, path.skip(backup_path.len() as int)),
        None => path,
    }
}

/// The tree that gets the entry with the path `path`: a directory is its own tree, and each other
/// entry goes to the tree of its directory.
pub open spec fn tree_path(path: Seq<Seq<char>>, is_dir: bool) -> Seq<Seq<char>> {
    if is_dir {
        path
    } else {
        path.drop_last()
    }
}

/// An entry of a source.
#[derive(Debug)]
pub struct SourceEntry<N> {
    /// The components of the path of the entry. The component of the root is [`ROOT`].
    pub path: Vec<String>,
    /// Whether the entry is a directory.
    pub is_dir: bool,
    /// The node of the entry, and what opens it.
    pub node: N,
}

/// Whether the backup can give the entry with the path `path` a path in the snapshot.
pub open spec fn can_place(
    path: Seq<Seq<char>>,
    is_dir: bool,
    backup_path: Seq<Seq<char>>,
    as_path: Option<Seq<Seq<char>>>,
) -> bool {
    &&& as_path is Some ==> backup_path.is_prefix_of(path)
    &&& !is_dir ==> has_parent(snapshot_path(path, backup_path, as_path))
}

/// The components of an optional path.
pub open spec fn optional_texts(path: Option<&Vec<String>>) -> Option<Seq<Seq<char>>> {
    match path {
        Some(path) => Some(text::texts(path@)),
        None => None,
    }
}

/// Gives a copy of the components `parts` from the position `start` on, after `out`.
fn push_parts(out: &mut Vec<String>, parts: &Vec<String>, start: usize)
    requires
        start <= parts.len(),
    ensures
        text::texts(final(out)@) == text::texts(old(out)@) + text::texts(parts@).skip(start as int),
{
    let n: usize = parts.len();
    let ghost before = text::texts(old(out)@);
    for i in start..n
        invariant
            start <= n,
            n == parts.len(),
            before == text::texts(old(out)@),
            text::texts(out@) == before + text::texts(parts@).subrange(start as int, i as int),
    {
        let ghost done = text::texts(out@);
        let part = parts[i].clone();
        out.push(part);
        assert(text::texts(out@) =~= done.push(part@));
        assert(text::texts(parts@).subrange(start as int, i + 1) =~= text::texts(parts@).subrange(
            start as int,
            i as int,
        ).push(part@));
    }
    assert(text::texts(parts@).subrange(start as int, n as int) =~= text::texts(parts@).skip(
        start as int,
    ));
}

/// Gives the path of the tree that gets an entry.
///
/// # Arguments
///
/// * `path` - The path of the entry
/// * `is_dir` - Whether the entry is a directory
/// * `backup_path` - The path of the backup
/// * `as_path` - The path of the backup in the snapshot
pub fn place(
    path: &Vec<String>,
    is_dir: bool,
    backup_path: &Vec<String>,
    as_path: Option<&Vec<String>>,
) -> (r: Vec<String>)
    requires
        can_place(text::texts(path@), is_dir, text::texts(backup_path@), optional_texts(as_path)),
    ensures
        text::texts(r@) == tree_path(
            snapshot_path(text::texts(path@), text::texts(backup_path@), optional_texts(as_path)),
            is_dir,
        ),
{
    let mut out: Vec<String> = Vec::new();
    let ghost whole = snapshot_path(
        text::texts(path@),
        text::texts(backup_path@),
        optional_texts(as_path),
    );
    match as_path {
        Some(as_path) => {
            let start: usize = backup_path.len();
            let absolute = start < path.len() && same_text(path[start].as_str(), ROOT);
            proof {
                let rest = text::texts(path@).skip(start as int);
                assert(absolute == (rest.len() > 0 && rest[0] == ROOT@));
            }
            if !absolute {
                push_parts(&mut out, as_path, 0);
            }
            push_parts(&mut out, path, start);
            proof {
                assert(text::texts(as_path@).skip(0) =~= text::texts(as_path@));
                assert(text::texts(out@) =~= whole);
            }
        },
        None => {
            push_parts(&mut out, path, 0);
            assert(text::texts(out@) =~= whole);
        },
    }
    if !is_dir {
        let ghost full = out@;
        assert(full.len() == text::texts(full).len());
        let _ = out.pop();
        assert(text::texts(out@) =~= text::texts(full).drop_last());
    }
    out
}

/// Tells if the backup can give the entry with the path `path` a path in the snapshot.
pub fn is_placeable(
    path: &Vec<String>,
    is_dir: bool,
    backup_path: &Vec<String>,
    as_path: Option<&Vec<String>>,
) -> (r: bool)
    ensures
        r == can_place(
            text::texts(path@),
            is_dir,
            text::texts(backup_path@),
            optional_texts(as_path),
        ),
{
    let start: usize = match as_path {
        Some(_) => {
            if path.len() < backup_path.len() {
                return false;
            }
            let n: usize = backup_path.len();
            for i in 0..n
                invariant
                    n == backup_path.len(),
                    n <= path.len(),
                    as_path is Some,
                    forall|j: int|
                        0 <= j < i ==> (#[trigger] text::texts(backup_path@)[j]) == text::texts(
                            path@,
                        )[j],
            {
                if !same_text(backup_path[i].as_str(), path[i].as_str()) {
                    assert(text::texts(backup_path@)[i as int] != text::texts(path@)[i as int]);
                    assert(!text::texts(backup_path@).is_prefix_of(text::texts(path@)));
                    return false;
                }
            }
            assert(text::texts(backup_path@).is_prefix_of(text::texts(path@))) by {
                assert(text::texts(path@).take(n as int) =~= text::texts(backup_path@));
            }
            n
        },
        None => 0,
    };
    if is_dir {
        return true;
    }
    let ghost whole = snapshot_path(
        text::texts(path@),
        text::texts(backup_path@),
        optional_texts(as_path),
    );
    let ghost rest = text::texts(path@).skip(start as int);
    if start < path.len() {
        let last: usize = path.len() - 1;
        assert(rest.last() == path[last as int]@);
        assert(whole.last() == rest.last());
        !same_text(path[last].as_str(), ROOT)
    } else {
        match as_path {
            Some(as_path) => {
                assert(whole =~= text::texts(as_path@));
                if as_path.len() == 0 {
                    false
                } else {
                    let last: usize = as_path.len() - 1;
                    assert(whole.last() == as_path[last as int]@);
                    !same_text(as_path[last].as_str(), ROOT)
                }
            },
            None => {
                assert(whole.len() == 0);
                false
            },
        }
    }
}

/// What a backup does with the result of a stage for an entry.
#[derive(Debug)]
pub enum Decision<T> {
    /// The entry goes to the next stage.
    Pass(T),
    /// The backup skips the entry, and warns about the error.
    Warn(RusticError),
    /// The backup skips the entry, and keeps the error.
    Skip,
    /// The backup reads no more entries.
    Stop,
}

/// What a backup does with the size of its source.
#[derive(Debug)]
pub enum SizeResult {
    /// Set the length of the progress.
    SetLength(u64),
    /// Nothing: the source does not tell its size.
    Nothing,
    /// Warn about the error.
    Warn(RusticError),
}

/// Tells if a backup determines the size of its source, in parallel to the backup.
pub fn scans_size(no_scan: bool, is_hidden: bool) -> (r: bool)
    ensures
        r == (!no_scan && !is_hidden),
{
    !no_scan && !is_hidden
}

/// Gives what a backup does with the size of its source. An error does not stop the backup.
pub fn size_result(size: RusticResult<Option<u64>>) -> (r: SizeResult)
    ensures
        r == match size {
            Ok(Some(size)) => SizeResult::SetLength(size),
            Ok(None) => SizeResult::Nothing,
            Err(err) => SizeResult::Warn(err),
        },
{
    match size {
        Ok(Some(size)) => SizeResult::SetLength(size),
        Ok(None) => SizeResult::Nothing,
        Err(err) => SizeResult::Warn(err),
    }
}

/// A snapshot.
#[derive(Debug)]
pub struct SnapshotFile<S> {
    /// The ID of the snapshot file.
    pub id: SnapshotId,
    /// The root tree.
    pub tree: TreeId,
    /// The summary of the backup.
    pub summary: Option<Summary<S>>,
}

/// The summary of a backup.
#[derive(Debug)]
pub struct Summary<S> {
    /// The time of the start of the backup.
    pub backup_start: Zoned,
    /// The other values.
    pub values: S,
}

/// A step that completes a backup.
#[derive(Debug)]
pub enum FinishStep<S> {
    /// Complete the data packs.
    FinalizeFiles(Finish<S>),
    /// Complete the tree packs, and save the root tree, with the root tree of the parent snapshot.
    FinalizeTrees(Finish<S>),
    /// Complete the index, and then the summary.
    FinalizeIndex(Finish<S>, Summary<S>),
    /// Save the snapshot file.
    SaveSnapshot(Finish<S>),
    /// The backup is complete.
    Done(SnapshotFile<S>),
    /// The backup failed.
    Failed(RusticError),
}

/// A backup that has no more entries.
#[derive(Debug)]
pub struct Finish<S> {
    /// The snapshot so far.
    pub snap: SnapshotFile<S>,
    /// The root tree of the parent snapshot.
    pub parent_tree: Option<TreeId>,
    /// Skip saving of the snapshot if its tree is identical to the tree of the parent snapshot.
    pub skip_identical_parent: bool,
}

impl<S> Finish<S> {
    /// Whether the backup saves the snapshot file.
    pub open spec fn saves(&self) -> bool {
        !self.skip_identical_parent || Some(self.snap.tree) != self.parent_tree
    }

    /// Gives the step after the completion of the data packs.
    pub fn files_done(self, r: RusticResult<()>) -> (next: FinishStep<S>)
        ensures
            next == match r {
                Ok(_) => FinishStep::FinalizeTrees(self),
                Err(err) => FinishStep::Failed(err),
            },
    {
        match r {
            Ok(()) => FinishStep::FinalizeTrees(self),
            Err(err) => FinishStep::Failed(err),
        }
    }

    /// Gives the step after the completion of the tree packs.
    ///
    /// # Arguments
    ///
    /// * `r` - The root tree, and the summary
    pub fn trees_done(self, r: RusticResult<(TreeId, Summary<S>)>) -> (next: FinishStep<S>)
        ensures
            next == match r {
                Ok((tree, summary)) => FinishStep::FinalizeIndex(
                    Finish { snap: SnapshotFile { tree, ..self.snap }, ..self },
                    summary,
                ),
                Err(err) => FinishStep::Failed(err),
            },
    {
        match r {
            Ok((tree, summary)) => FinishStep::FinalizeIndex(
                Finish { snap: SnapshotFile { tree, ..self.snap }, ..self },
                summary,
            ),
            Err(err) => FinishStep::Failed(err),
        }
    }

    /// Gives the step after the completion of the index.
    ///
    /// # Arguments
    ///
    /// * `r` - The complete summary
    pub fn index_done(self, r: RusticResult<Summary<S>>) -> (next: FinishStep<S>)
        ensures
            next == match r {
                Ok(summary) => {
                    let snap = SnapshotFile { summary: Some(summary), ..self.snap };
                    if self.saves() {
                        FinishStep::SaveSnapshot(Finish { snap, ..self })
                    } else {
                        FinishStep::Done(snap)
                    }
                },
                Err(err) => FinishStep::Failed(err),
            },
    {
        match r {
            Ok(summary) => {
                let identical = match self.parent_tree {
                    Some(parent) => parent == self.snap.tree,
                    None => false,
                };
                let snap = SnapshotFile { id: self.snap.id, tree: self.snap.tree, summary: Some(summary) };
                if !self.skip_identical_parent || !identical {
                    FinishStep::SaveSnapshot(
                        Finish {
                            snap,
                            parent_tree: self.parent_tree,
                            skip_identical_parent: self.skip_identical_parent,
                        },
                    )
                } else {
                    FinishStep::Done(snap)
                }
            },
            Err(err) => FinishStep::Failed(err),
        }
    }

    /// Gives the step after the snapshot file was saved.
    ///
    /// # Arguments
    ///
    /// * `r` - The ID of the snapshot file
    pub fn snapshot_saved(self, r: RusticResult<SnapshotId>) -> (next: FinishStep<S>)
        ensures
            next == match r {
                Ok(id) => FinishStep::Done(SnapshotFile { id, ..self.snap }),
                Err(err) => FinishStep::Failed(err),
            },
    {
        match r {
            Ok(id) => FinishStep::Done(SnapshotFile { id, ..self.snap }),
            Err(err) => FinishStep::Failed(err),
        }
    }
}

/// Decides the steps of a backup.
#[derive(Debug)]
pub struct Archiver<S> {
    /// The snapshot, without a summary.
    pub snap: SnapshotFile<S>,
    /// The root tree of the parent snapshot.
    pub parent_tree: Option<TreeId>,
    /// Fail the backup on each error that makes it skip an entry, for example if it cannot read
    /// an entry.
    pub fail_on_read_error: bool,
    /// The number of threads of each parallel stage. If it is `None`, each stage uses its default.
    pub threads: Option<u64>,
    /// The first error of an entry, if `fail_on_read_error` is set.
    pub first_error: FirstError,
}

impl<S> Archiver<S> {
    /// Creates an archiver, and the summary for the tree stage.
    ///
    /// # Arguments
    ///
    /// * `snap` - The snapshot to write
    /// * `parent_tree` - The root tree of the parent snapshot
    /// * `fail_on_read_error` - Fail the backup on each error that makes it skip an entry
    /// * `threads` - The number of threads of each parallel stage
    /// * `now` - The time of the start of the backup
    /// * `values` - The other values of a new summary
    pub fn new(
        snap: SnapshotFile<S>,
        parent_tree: Option<TreeId>,
        fail_on_read_error: bool,
        threads: Option<u64>,
        now: Zoned,
        values: S,
    ) -> (r: (Self, Summary<S>))
        ensures
            r.0.snap == (SnapshotFile::<S> { summary: None, ..snap }),
            r.0.parent_tree == parent_tree,
            r.0.fail_on_read_error == fail_on_read_error,
            r.0.threads == threads,
            r.0.first_error.error is None,
            r.1.backup_start == now,
            r.1.values == match snap.summary {
                Some(summary) => summary.values,
                None => values,
            },
    {
        let values = match snap.summary {
            Some(summary) => summary.values,
            None => values,
        };
        let archiver = Archiver {
            snap: SnapshotFile { id: snap.id, tree: snap.tree, summary: None },
            parent_tree,
            fail_on_read_error,
            threads,
            first_error: FirstError::new(),
        };
        (archiver, Summary { backup_start: now, values })
    }

    /// Whether this archiver has the settings of `other`.
    pub open spec fn same_settings(&self, other: &Self) -> bool {
        &&& self.snap == other.snap
        &&& self.parent_tree == other.parent_tree
        &&& self.fail_on_read_error == other.fail_on_read_error
        &&& self.threads == other.threads
    }

    /// Whether the error `err` of an entry gives the decision `r`, and leaves the archiver `after`.
    pub open spec fn handles<T>(&self, err: RusticError, r: Decision<T>, after: &Self) -> bool {
        &&& after.same_settings(self)
        &&& if self.fail_on_read_error {
            r == Decision::<T>::Skip && after.first_error.error == first_of(
                self.first_error.error,
                err,
            )
        } else {
            r == Decision::<T>::Warn(err) && after.first_error == self.first_error
        }
    }

    /// Decides about the error `err` of an entry.
    fn handle<T>(&mut self, err: RusticError) -> (r: Decision<T>)
        ensures
            old(self).handles(err, r, final(self)),
    {
        if self.fail_on_read_error {
            self.first_error.store(err);
            Decision::Skip
        } else {
            Decision::Warn(err)
        }
    }

    /// Whether the item `item` of the source gives the decision `r`, and leaves the archiver
    /// `after`.
    pub open spec fn enters<N>(
        &self,
        item: RusticResult<SourceEntry<N>>,
        backup_path: Seq<Seq<char>>,
        as_path: Option<Seq<Seq<char>>>,
        r: Decision<(Vec<String>, SourceEntry<N>)>,
        after: &Self,
    ) -> bool {
        if self.first_error.error is Some {
            r is Stop && *after == *self
        } else {
            match item {
                Err(err) => self.handles(err, r, after),
                Ok(entry) => {
                    &&& *after == *self
                    &&& r matches Decision::Pass((tree, e))
                    &&& e == entry
                    &&& text::texts(tree@) == tree_path(
                        snapshot_path(text::texts(entry.path@), backup_path, as_path),
                        entry.is_dir,
                    )
                },
            }
        }
    }

    /// Decides about an entry of the source.
    ///
    /// The backup stops reading the source after the first error of an entry.
    ///
    /// # Returns
    ///
    /// The path of the tree that gets the entry, and the entry.
    pub fn entry<N>(
        &mut self,
        item: RusticResult<SourceEntry<N>>,
        backup_path: &Vec<String>,
        as_path: Option<&Vec<String>>,
    ) -> (r: Decision<(Vec<String>, SourceEntry<N>)>)
        requires
            old(self).first_error.error is None && item is Ok ==> can_place(
                text::texts(item->Ok_0.path@),
                item->Ok_0.is_dir,
                text::texts(backup_path@),
                optional_texts(as_path),
            ),
        ensures
            old(self).enters(
                item,
                text::texts(backup_path@),
                optional_texts(as_path),
                r,
                final(self),
            ),
    {
        if self.first_error.is_set() {
            return Decision::Stop;
        }
        match item {
            Err(err) => self.handle(err),
            Ok(entry) => {
                let tree = place(&entry.path, entry.is_dir, backup_path, as_path);
                Decision::Pass((tree, entry))
            },
        }
    }

    /// Decides about the result of the comparison of an entry with the parent snapshot.
    pub fn parent_result<T>(&mut self, item: Result<T, TreeStackEmptyError>) -> (r: Decision<T>)
        ensures
            match item {
                Ok(item) => r == Decision::Pass(item) && *final(self) == *old(self),
                Err(_) => old(self).handles(RusticError::TreeStackEmpty, r, final(self)),
            },
    {
        match item {
            Ok(item) => Decision::Pass(item),
            Err(_) => self.handle(RusticError::TreeStackEmpty),
        }
    }

    /// Decides about the result of the archival of a file.
    pub fn file_result<T>(&mut self, item: RusticResult<T>) -> (r: Decision<T>)
        ensures
            match item {
                Ok(item) => r == Decision::Pass(item) && *final(self) == *old(self),
                Err(err) => old(self).handles(err, r, final(self)),
            },
    {
        match item {
            Ok(item) => Decision::Pass(item),
            Err(err) => self.handle(err),
        }
    }

    /// Completes the backup after all entries went through the stages.
    ///
    /// If the backup cannot read an entry, the step is the error, before the backup writes the
    /// snapshot file.
    ///
    /// # Arguments
    ///
    /// * `stages` - The error of the tree stage, or `Ok`
    /// * `skip_identical_parent` - Skip saving of the snapshot if its tree is identical to the tree
    ///   of the parent snapshot
    pub fn archive(self, stages: RusticResult<()>, skip_identical_parent: bool) -> (r: FinishStep<S>)
        ensures
            r == match (stages, self.first_error.error) {
                (Err(err), _) => FinishStep::Failed(err),
                (Ok(_), Some(err)) => FinishStep::Failed(err),
                (Ok(_), None) => FinishStep::FinalizeFiles(
                    Finish { snap: self.snap, parent_tree: self.parent_tree, skip_identical_parent },
                ),
            },
    {
        match stages {
            Err(err) => FinishStep::Failed(err),
            Ok(()) => match self.first_error.into_result() {
                Err(err) => FinishStep::Failed(err),
                Ok(()) => FinishStep::FinalizeFiles(
                    Finish { snap: self.snap, parent_tree: self.parent_tree, skip_identical_parent },
                ),
            },
        }
    }
}

/// The first error after the errors `errors` of entries.
pub open spec fn kept_error(
    fail_on_read_error: bool,
    first: Option<RusticError>,
    errors: Seq<RusticError>,
) -> Option<RusticError>
    decreases errors.len(),
{
    if errors.len() == 0 || !fail_on_read_error {
        first
    } else {
        first_of(kept_error(fail_on_read_error, first, errors.drop_last()), errors.last())
    }
}

/// Whether the archivers `run` handle the errors `errors` one after the other.
pub open spec fn is_run<S, T>(
    run: Seq<Archiver<S>>,
    errors: Seq<RusticError>,
    decisions: Seq<Decision<T>>,
) -> bool {
    &&& run.len() == errors.len() + 1
    &&& decisions.len() == errors.len()
    &&& forall|i: int|
        0 <= i < errors.len() ==> (#[trigger] run[i]).handles(errors[i], decisions[i], &run[i + 1])
}

proof fn lemma_kept_error<S, T>(
    run: Seq<Archiver<S>>,
    errors: Seq<RusticError>,
    decisions: Seq<Decision<T>>,
)
    requires
        is_run(run, errors, decisions),
    ensures
        run.last().same_settings(&run[0]),
        run.last().first_error.error == kept_error(
            run[0].fail_on_read_error,
            run[0].first_error.error,
            errors,
        ),
    decreases errors.len(),
{
    if errors.len() > 0 {
        let n = errors.len() - 1;
        let shorter = run.drop_last();
        let before = errors.drop_last();
        let decided = decisions.drop_last();
        assert forall|i: int| 0 <= i < before.len() implies (#[trigger] shorter[i]).handles(
            before[i],
            decided[i],
            &shorter[i + 1],
        ) by {
            assert(run[i].handles(errors[i], decisions[i], &run[i + 1]));
        }
        lemma_kept_error(shorter, before, decided);
        assert(run[n].handles(errors[n], decisions[n], &run[n + 1]));
    }
}

proof fn lemma_first_is_kept(first: Option<RusticError>, errors: Seq<RusticError>)
    ensures
        kept_error(true, first, errors) == match first {
            Some(err) => Some(err),
            None => if errors.len() > 0 {
                Some(errors[0])
            } else {
                None
            },
        },
    decreases errors.len(),
{
    if errors.len() > 0 {
        lemma_first_is_kept(first, errors.drop_last());
    }
}

/// With `fail_on_read_error`, a backup that cannot read an entry fails with the first error, and
/// writes no snapshot file. The archiver keeps the error, so [`Archiver::entry`] takes no more
/// entries.
pub proof fn law_first_error_fails_the_backup<S, T>(
    run: Seq<Archiver<S>>,
    errors: Seq<RusticError>,
    decisions: Seq<Decision<T>>,
    skip_identical_parent: bool,
    last: FinishStep<S>,
)
    requires
        is_run(run, errors, decisions),
        run[0].fail_on_read_error,
        run[0].first_error.error is None,
        errors.len() > 0,
        call_ensures(
            Archiver::<S>::archive,
            (run.last(), Ok::<(), RusticError>(()), skip_identical_parent),
            last,
        ),
    ensures
        last == FinishStep::<S>::Failed(errors[0]),
        run.last().first_error.error is Some,
{
    lemma_kept_error(run, errors, decisions);
    lemma_first_is_kept(None, errors);
}

/// Without `fail_on_read_error`, a backup skips each entry with an error, warns about it, and goes
/// on.
pub proof fn law_errors_are_warnings_without_the_option<S, T>(
    run: Seq<Archiver<S>>,
    errors: Seq<RusticError>,
    decisions: Seq<Decision<T>>,
)
    requires
        is_run(run, errors, decisions),
        !run[0].fail_on_read_error,
        run[0].first_error.error is None,
    ensures
        run.last().first_error.error is None,
        forall|i: int|
            0 <= i < errors.len() ==> (#[trigger] decisions[i]) == Decision::<T>::Warn(errors[i]),
{
    lemma_kept_error(run, errors, decisions);
    assert forall|i: int| 0 <= i < errors.len() implies (#[trigger] decisions[i]) == Decision::<
        T,
    >::Warn(errors[i]) by {
        let shorter = run.take(i + 1);
        let before = errors.take(i);
        assert forall|j: int| 0 <= j < i implies (#[trigger] shorter[j]).handles(
            before[j],
            decisions.take(i)[j],
            &shorter[j + 1],
        ) by {
            assert(run[j].handles(errors[j], decisions[j], &run[j + 1]));
        }
        lemma_kept_error(shorter, before, decisions.take(i));
        assert(run[i].handles(errors[i], decisions[i], &run[i + 1]));
    }
}

/// An entry that goes to the next stages, with the tree that gets it.
pub ghost struct Placed<N> {
    /// The path of the tree.
    pub tree: Seq<Seq<char>>,
    /// Whether the entry is a directory.
    pub is_dir: bool,
    /// The node of the entry, and what opens it.
    pub node: N,
}

/// The entry that a backup of `backup_path` as `as_path` gives to the next stages for `entry`.
pub open spec fn placed<N>(
    entry: SourceEntry<N>,
    backup_path: Seq<Seq<char>>,
    as_path: Option<Seq<Seq<char>>>,
) -> Placed<N> {
    Placed {
        tree: tree_path(
            snapshot_path(text::texts(entry.path@), backup_path, as_path),
            entry.is_dir,
        ),
        is_dir: entry.is_dir,
        node: entry.node,
    }
}

/// The entry that `decision` gives to the next stages.
pub open spec fn passed_by<N>(decision: Decision<(Vec<String>, SourceEntry<N>)>) -> Option<
    Placed<N>,
> {
    match decision {
        Decision::Pass((tree, entry)) => Some(
            Placed { tree: text::texts(tree@), is_dir: entry.is_dir, node: entry.node },
        ),
        _ => None,
    }
}

/// The entries that `decisions` give to the next stages.
pub open spec fn passed<N>(decisions: Seq<Decision<(Vec<String>, SourceEntry<N>)>>) -> Seq<
    Placed<N>,
>
    decreases decisions.len(),
{
    if decisions.len() == 0 {
        Seq::empty()
    } else {
        let before = passed(decisions.drop_last());
        match passed_by(decisions.last()) {
            Some(entry) => before.push(entry),
            None => before,
        }
    }
}

/// The items of `items` that are no errors.
pub open spec fn without_errors<N>(items: Seq<RusticResult<SourceEntry<N>>>) -> Seq<
    RusticResult<SourceEntry<N>>,
>
    decreases items.len(),
{
    if items.len() == 0 {
        Seq::empty()
    } else {
        let before = without_errors(items.drop_last());
        if items.last() is Ok {
            before.push(items.last())
        } else {
            before
        }
    }
}

/// The entries of `items` with their trees.
pub open spec fn all_placed<N>(
    items: Seq<RusticResult<SourceEntry<N>>>,
    backup_path: Seq<Seq<char>>,
    as_path: Option<Seq<Seq<char>>>,
) -> Seq<Placed<N>>
    decreases items.len(),
{
    if items.len() == 0 {
        Seq::empty()
    } else {
        let before = all_placed(items.drop_last(), backup_path, as_path);
        match items.last() {
            Ok(entry) => before.push(placed(entry, backup_path, as_path)),
            Err(_) => before,
        }
    }
}

/// The items of a source, the path of the source, and its path in the snapshot.
pub ghost struct Input<N> {
    /// The items.
    pub items: Seq<RusticResult<SourceEntry<N>>>,
    /// The path of the source.
    pub backup_path: Seq<Seq<char>>,
    /// The path of the source in the snapshot.
    pub as_path: Option<Seq<Seq<char>>>,
}

/// Whether the archivers `run` take the items of `input` one after the other, with the decisions
/// `decisions`.
pub open spec fn reads<S, N>(
    run: Seq<Archiver<S>>,
    input: Input<N>,
    decisions: Seq<Decision<(Vec<String>, SourceEntry<N>)>>,
) -> bool {
    &&& run.len() == input.items.len() + 1
    &&& decisions.len() == input.items.len()
    &&& forall|i: int|
        0 <= i < input.items.len() ==> (#[trigger] run[i]).enters(
            input.items[i],
            input.backup_path,
            input.as_path,
            decisions[i],
            &run[i + 1],
        )
}

/// Whether the backup with the last archiver `last` completes its files and trees without an error,
/// and its snapshot then is `snap`. The tree stage gives the tree `tree_of` of the entries that it
/// gets.
pub open spec fn completes<S, N>(
    last: Archiver<S>,
    skip_identical_parent: bool,
    tree_of: spec_fn(Seq<Placed<N>>) -> TreeId,
    entries: Seq<Placed<N>>,
    summary: Summary<S>,
    snap: SnapshotFile<S>,
) -> bool {
    exists|files: Finish<S>, trees: Finish<S>, index: Finish<S>|
        {
            &&& #[trigger] call_ensures(
                Archiver::<S>::archive,
                (last, Ok::<(), RusticError>(()), skip_identical_parent),
                FinishStep::FinalizeFiles(files),
            )
            &&& #[trigger] call_ensures(
                Finish::<S>::files_done,
                (files, Ok::<(), RusticError>(())),
                FinishStep::FinalizeTrees(trees),
            )
            &&& #[trigger] call_ensures(
                Finish::<S>::trees_done,
                (trees, Ok::<(TreeId, Summary<S>), RusticError>((tree_of(entries), summary))),
                FinishStep::FinalizeIndex(index, summary),
            )
            &&& snap == index.snap
        }
}

proof fn lemma_completes<S, N>(
    last: Archiver<S>,
    skip_identical_parent: bool,
    tree_of: spec_fn(Seq<Placed<N>>) -> TreeId,
    entries: Seq<Placed<N>>,
    summary: Summary<S>,
    snap: SnapshotFile<S>,
)
    requires
        completes(last, skip_identical_parent, tree_of, entries, summary, snap),
    ensures
        snap.tree == tree_of(entries),
{
}

/// A backup that keeps no error gives all entries of its source to the next stages.
proof fn lemma_all_passed<S, N>(
    run: Seq<Archiver<S>>,
    input: Input<N>,
    decisions: Seq<Decision<(Vec<String>, SourceEntry<N>)>>,
)
    requires
        reads(run, input, decisions),
        run[0].first_error.error is None,
        !run[0].fail_on_read_error,
    ensures
        passed(decisions) == all_placed(input.items, input.backup_path, input.as_path),
        run.last() == run[0],
    decreases input.items.len(),
{
    if input.items.len() > 0 {
        let n = input.items.len() - 1;
        let shorter = run.drop_last();
        let before = Input { items: input.items.drop_last(), ..input };
        let decided = decisions.drop_last();
        assert forall|i: int| 0 <= i < before.items.len() implies (#[trigger] shorter[i]).enters(
            before.items[i],
            before.backup_path,
            before.as_path,
            decided[i],
            &shorter[i + 1],
        ) by {
            assert(run[i].enters(
                input.items[i],
                input.backup_path,
                input.as_path,
                decisions[i],
                &run[i + 1],
            ));
        }
        lemma_all_passed(shorter, before, decided);
        assert(run[n].enters(
            input.items[n],
            input.backup_path,
            input.as_path,
            decisions[n],
            &run[n + 1],
        ));
    }
}

proof fn lemma_errors_place_nothing<N>(
    items: Seq<RusticResult<SourceEntry<N>>>,
    backup_path: Seq<Seq<char>>,
    as_path: Option<Seq<Seq<char>>>,
)
    ensures
        all_placed(without_errors(items), backup_path, as_path) == all_placed(
            items,
            backup_path,
            as_path,
        ),
    decreases items.len(),
{
    if items.len() > 0 {
        lemma_errors_place_nothing(items.drop_last(), backup_path, as_path);
        if items.last() is Ok {
            let before = without_errors(items.drop_last());
            assert(without_errors(items).drop_last() =~= before);
        }
    }
}

/// Without `fail_on_read_error`, an item of the source that is an error changes nothing else: the
/// backup completes, and the next stages get the entries, and so the snapshot gets the tree, of the
/// source without its errors.
pub proof fn law_errors_change_nothing_else<S, N>(
    first: Archiver<S>,
    input: Input<N>,
    run: Seq<Archiver<S>>,
    decisions: Seq<Decision<(Vec<String>, SourceEntry<N>)>>,
    other_run: Seq<Archiver<S>>,
    other_decisions: Seq<Decision<(Vec<String>, SourceEntry<N>)>>,
    skip_identical_parent: bool,
    tree_of: spec_fn(Seq<Placed<N>>) -> TreeId,
    summary: Summary<S>,
    other_snap: SnapshotFile<S>,
)
    requires
        !first.fail_on_read_error,
        first.first_error.error is None,
        run[0] == first,
        reads(run, input, decisions),
        other_run[0] == first,
        reads(
            other_run,
            Input { items: without_errors(input.items), ..input },
            other_decisions,
        ),
        completes(
            other_run.last(),
            skip_identical_parent,
            tree_of,
            passed(other_decisions),
            summary,
            other_snap,
        ),
    ensures
        passed(decisions) == passed(other_decisions),
        completes(
            run.last(),
            skip_identical_parent,
            tree_of,
            passed(decisions),
            summary,
            other_snap,
        ),
        forall|snap: SnapshotFile<S>| #[trigger]
            completes(
                run.last(),
                skip_identical_parent,
                tree_of,
                passed(decisions),
                summary,
                snap,
            ) ==> snap.tree == other_snap.tree,
{
    let other = Input { items: without_errors(input.items), ..input };
    lemma_all_passed(run, input, decisions);
    lemma_all_passed(other_run, other, other_decisions);
    lemma_errors_place_nothing(input.items, input.backup_path, input.as_path);
}

/// Whether two archivers are equal, apart from the number of threads.
pub open spec fn differ_in_threads<S>(a: Archiver<S>, b: Archiver<S>) -> bool {
    &&& a.snap == b.snap
    &&& a.parent_tree == b.parent_tree
    &&& a.fail_on_read_error == b.fail_on_read_error
    &&& a.first_error == b.first_error
}

/// Whether two decisions are alike: they give the same entry with the same tree to the next stages,
/// or they skip an entry for the same error, or they stop.
pub open spec fn alike<N>(
    a: Decision<(Vec<String>, SourceEntry<N>)>,
    b: Decision<(Vec<String>, SourceEntry<N>)>,
) -> bool {
    match (a, b) {
        (Decision::Pass(_), Decision::Pass(_)) => passed_by(a) == passed_by(b),
        (Decision::Warn(err), Decision::Warn(other)) => err == other,
        (Decision::Skip, Decision::Skip) => true,
        (Decision::Stop, Decision::Stop) => true,
        _ => false,
    }
}

/// Whether two sources give the same errors and the same entries for the same trees.
pub open spec fn same_placed<N>(a: Input<N>, b: Input<N>) -> bool {
    &&& a.items.len() == b.items.len()
    &&& forall|i: int|
        0 <= i < a.items.len() ==> match (#[trigger] a.items[i], b.items[i]) {
            (Ok(x), Ok(y)) => placed(x, a.backup_path, a.as_path) == placed(
                y,
                b.backup_path,
                b.as_path,
            ),
            (Err(x), Err(y)) => x == y,
            _ => false,
        }
}

proof fn lemma_same_passed<N>(
    a: Seq<Decision<(Vec<String>, SourceEntry<N>)>>,
    b: Seq<Decision<(Vec<String>, SourceEntry<N>)>>,
)
    requires
        a.len() == b.len(),
        forall|i: int| 0 <= i < a.len() ==> alike(#[trigger] a[i], b[i]),
    ensures
        passed(a) == passed(b),
    decreases a.len(),
{
    if a.len() > 0 {
        let (x, y) = (a.drop_last(), b.drop_last());
        assert forall|i: int| 0 <= i < x.len() implies alike(#[trigger] x[i], y[i]) by {
            assert(alike(a[i], b[i]));
        }
        lemma_same_passed(x, y);
        assert(alike(a[a.len() - 1], b[b.len() - 1]));
    }
}

proof fn lemma_same_state<S, N>(
    a: Input<N>,
    a_run: Seq<Archiver<S>>,
    a_decisions: Seq<Decision<(Vec<String>, SourceEntry<N>)>>,
    b: Input<N>,
    b_run: Seq<Archiver<S>>,
    b_decisions: Seq<Decision<(Vec<String>, SourceEntry<N>)>>,
    n: int,
)
    requires
        reads(a_run, a, a_decisions),
        reads(b_run, b, b_decisions),
        same_placed(a, b),
        differ_in_threads(a_run[0], b_run[0]),
        0 <= n <= a.items.len(),
    ensures
        differ_in_threads(a_run[n], b_run[n]),
        a_run[n].threads == a_run[0].threads,
        b_run[n].threads == b_run[0].threads,
    decreases n,
{
    if n > 0 {
        lemma_same_state(a, a_run, a_decisions, b, b_run, b_decisions, n - 1);
        lemma_alike_step(a, a_run, a_decisions, b, b_run, b_decisions, n - 1);
    }
}

proof fn lemma_alike_step<S, N>(
    a: Input<N>,
    a_run: Seq<Archiver<S>>,
    a_decisions: Seq<Decision<(Vec<String>, SourceEntry<N>)>>,
    b: Input<N>,
    b_run: Seq<Archiver<S>>,
    b_decisions: Seq<Decision<(Vec<String>, SourceEntry<N>)>>,
    n: int,
)
    requires
        reads(a_run, a, a_decisions),
        reads(b_run, b, b_decisions),
        same_placed(a, b),
        0 <= n < a.items.len(),
        differ_in_threads(a_run[n], b_run[n]),
    ensures
        alike(a_decisions[n], b_decisions[n]),
        differ_in_threads(a_run[n + 1], b_run[n + 1]),
        a_run[n + 1].threads == a_run[n].threads,
        b_run[n + 1].threads == b_run[n].threads,
{
    assert(a_run[n].enters(
        a.items[n],
        a.backup_path,
        a.as_path,
        a_decisions[n],
        &a_run[n + 1],
    ));
    assert(b_run[n].enters(
        b.items[n],
        b.backup_path,
        b.as_path,
        b_decisions[n],
        &b_run[n + 1],
    ));
}

/// Two backups whose archivers differ only in the number of threads, and whose sources give the
/// same entries for the same trees, decide alike.
proof fn lemma_alike<S, N>(
    a: Input<N>,
    a_run: Seq<Archiver<S>>,
    a_decisions: Seq<Decision<(Vec<String>, SourceEntry<N>)>>,
    b: Input<N>,
    b_run: Seq<Archiver<S>>,
    b_decisions: Seq<Decision<(Vec<String>, SourceEntry<N>)>>,
)
    requires
        reads(a_run, a, a_decisions),
        reads(b_run, b, b_decisions),
        same_placed(a, b),
        differ_in_threads(a_run[0], b_run[0]),
    ensures
        forall|i: int|
            0 <= i < a.items.len() ==> alike(#[trigger] a_decisions[i], b_decisions[i]),
        passed(a_decisions) == passed(b_decisions),
        differ_in_threads(a_run.last(), b_run.last()),
        a_run[0] == b_run[0] ==> a_run.last() == b_run.last(),
{
    assert forall|i: int| 0 <= i < a.items.len() implies alike(
        #[trigger] a_decisions[i],
        b_decisions[i],
    ) by {
        lemma_same_state(a, a_run, a_decisions, b, b_run, b_decisions, i);
        lemma_alike_step(a, a_run, a_decisions, b, b_run, b_decisions, i);
    }
    lemma_same_passed(a_decisions, b_decisions);
    lemma_same_state(a, a_run, a_decisions, b, b_run, b_decisions, a.items.len() as int);
}

/// The number of threads changes no decision of a backup, and so not the tree of its snapshot.
pub proof fn law_threads_change_nothing<S, N>(
    input: Input<N>,
    run: Seq<Archiver<S>>,
    decisions: Seq<Decision<(Vec<String>, SourceEntry<N>)>>,
    other_run: Seq<Archiver<S>>,
    other_decisions: Seq<Decision<(Vec<String>, SourceEntry<N>)>>,
    skip_identical_parent: bool,
    tree_of: spec_fn(Seq<Placed<N>>) -> TreeId,
    summary: Summary<S>,
    other_summary: Summary<S>,
    snap: SnapshotFile<S>,
    other_snap: SnapshotFile<S>,
)
    requires
        differ_in_threads(run[0], other_run[0]),
        reads(run, input, decisions),
        reads(other_run, input, other_decisions),
    ensures
        forall|i: int|
            0 <= i < input.items.len() ==> alike(#[trigger] decisions[i], other_decisions[i]),
        passed(decisions) == passed(other_decisions),
        differ_in_threads(run.last(), other_run.last()),
        completes(
            run.last(),
            skip_identical_parent,
            tree_of,
            passed(decisions),
            summary,
            snap,
        ) && completes(
            other_run.last(),
            skip_identical_parent,
            tree_of,
            passed(other_decisions),
            other_summary,
            other_snap,
        ) ==> snap.tree == other_snap.tree,
{
    lemma_alike(input, run, decisions, input, other_run, other_decisions);
}

/// Whether `b` is `a` with `as_path` in place of the path of the source in each path, and so
/// without a path in the snapshot.
pub open spec fn is_moved<N>(a: Input<N>, b: Input<N>) -> bool {
    &&& a.as_path is Some
    &&& b.as_path is None
    &&& a.items.len() == b.items.len()
    &&& forall|i: int|
        0 <= i < a.items.len() ==> match (#[trigger] a.items[i], b.items[i]) {
            (Ok(x), Ok(y)) => {
                &&& text::texts(y.path@) == below(
                    a.as_path->Some_0,
                    text::texts(x.path@).skip(a.backup_path.len() as int),
                )
                &&& y.is_dir == x.is_dir
                &&& y.node == x.node
            },
            (Err(x), Err(y)) => x == y,
            _ => false,
        }
}

proof fn lemma_moved_is_placed<N>(a: Input<N>, b: Input<N>)
    requires
        is_moved(a, b),
    ensures
        same_placed(a, b),
{
}

/// A backup with `as_path` decides as a backup of the source whose paths have `as_path` in place of
/// the path of the source, and so gives the same tree.
pub proof fn law_as_path_replaces_prefix<S, N>(
    input: Input<N>,
    run: Seq<Archiver<S>>,
    decisions: Seq<Decision<(Vec<String>, SourceEntry<N>)>>,
    moved: Input<N>,
    moved_run: Seq<Archiver<S>>,
    moved_decisions: Seq<Decision<(Vec<String>, SourceEntry<N>)>>,
    skip_identical_parent: bool,
    tree_of: spec_fn(Seq<Placed<N>>) -> TreeId,
    summary: Summary<S>,
    moved_snap: SnapshotFile<S>,
)
    requires
        is_moved(input, moved),
        run[0] == moved_run[0],
        reads(run, input, decisions),
        reads(moved_run, moved, moved_decisions),
        completes(
            moved_run.last(),
            skip_identical_parent,
            tree_of,
            passed(moved_decisions),
            summary,
            moved_snap,
        ),
    ensures
        forall|i: int|
            0 <= i < input.items.len() ==> alike(#[trigger] decisions[i], moved_decisions[i]),
        passed(decisions) == passed(moved_decisions),
        forall|snap: SnapshotFile<S>| #[trigger]
            completes(
                run.last(),
                skip_identical_parent,
                tree_of,
                passed(decisions),
                summary,
                snap,
            ) ==> snap.tree == moved_snap.tree,
        completes(
            run.last(),
            skip_identical_parent,
            tree_of,
            passed(decisions),
            summary,
            moved_snap,
        ),
{
    lemma_moved_is_placed(input, moved);
    lemma_alike(input, run, decisions, moved, moved_run, moved_decisions);
}

/// A backup saves its snapshot file only after the files, the trees and the index are written
/// without an error, and the snapshot has the written tree. With `skip_identical_parent`, this
/// tree is not the tree of the parent snapshot.
pub proof fn law_snapshot_comes_last<S>(
    archiver: Archiver<S>,
    stages: RusticResult<()>,
    skip_identical_parent: bool,
    files: RusticResult<()>,
    trees: RusticResult<(TreeId, Summary<S>)>,
    index: RusticResult<Summary<S>>,
    steps: (Finish<S>, Finish<S>, Finish<S>, Finish<S>),
    summary: Summary<S>,
)
    requires
        call_ensures(
            Archiver::<S>::archive,
            (archiver, stages, skip_identical_parent),
            FinishStep::FinalizeFiles(steps.0),
        ),
        call_ensures(Finish::<S>::files_done, (steps.0, files), FinishStep::FinalizeTrees(steps.1)),
        call_ensures(
            Finish::<S>::trees_done,
            (steps.1, trees),
            FinishStep::FinalizeIndex(steps.2, summary),
        ),
        call_ensures(Finish::<S>::index_done, (steps.2, index), FinishStep::SaveSnapshot(steps.3)),
    ensures
        stages is Ok && archiver.first_error.error is None,
        files is Ok,
        trees is Ok && steps.3.snap.tree == trees->Ok_0.0,
        index is Ok && steps.3.snap.summary == Some(index->Ok_0),
        skip_identical_parent ==> archiver.parent_tree != Some(steps.3.snap.tree),
{
}

/// Without a path in the snapshot, an entry keeps its path. The tree of a directory is its path. The
/// tree of each other entry is its directory, at every depth: the tree and the name of the entry
/// are together the path of the entry.
pub proof fn law_tree_is_the_directory(
    path: Vec<String>,
    is_dir: bool,
    backup_path: Vec<String>,
    tree: Vec<String>,
)
    requires
        path.len() > 0,
        call_ensures(place, (&path, is_dir, &backup_path, None::<&Vec<String>>), tree),
    ensures
        is_dir ==> text::texts(tree@) == text::texts(path@),
        !is_dir ==> tree.len() + 1 == path.len(),
        !is_dir ==> text::texts(tree@).push(text::texts(path@).last()) == text::texts(path@),
{
    let whole = text::texts(path@);
    if !is_dir {
        assert(text::texts(tree@) == whole.drop_last());
        assert(tree.len() == text::texts(tree@).len());
        assert(whole.drop_last().push(whole.last()) =~= whole);
    }
}

/// With the path `as_path` in the snapshot, the entry `rest` below the source gets the path `rest`
/// below `as_path`, and nothing of the path of the source stays. The tree of a directory is this
/// path. The tree and the name of each other entry are together this path. A source that is a
/// single file is the entry `as_path` itself. An absolute `rest` keeps its path.
pub proof fn law_tree_is_below_as_path(
    path: Vec<String>,
    is_dir: bool,
    backup_path: Vec<String>,
    as_path: Vec<String>,
    rest: Seq<Seq<char>>,
    tree: Vec<String>,
)
    requires
        text::texts(path@) == text::texts(backup_path@) + rest,
        call_ensures(place, (&path, is_dir, &backup_path, Some(&as_path)), tree),
    ensures
        ({
            let found = if rest.len() > 0 && rest[0] == ROOT@ {
                rest
            } else {
                text::texts(as_path@) + rest
            };
            &&& is_dir ==> text::texts(tree@) == found
            &&& !is_dir && rest.len() > 0 ==> text::texts(tree@).push(rest.last()) == found
            &&& !is_dir && rest.len() == 0 && as_path.len() > 0 ==> text::texts(tree@).push(
                as_path@.last()@,
            ) == found
        }),
{
    let whole = text::texts(path@);
    assert(whole.skip(backup_path@.len() as int) =~= rest);
    assert(text::texts(backup_path@).len() == backup_path@.len());
    let found = if rest.len() > 0 && rest[0] == ROOT@ {
        rest
    } else {
        text::texts(as_path@) + rest
    };
    if is_dir {
        assert(text::texts(tree@) =~= found);
    } else if rest.len() > 0 {
        assert(text::texts(tree@) == found.drop_last());
        assert(found.last() == rest.last());
        assert(found.drop_last().push(found.last()) =~= found);
    } else if as_path.len() > 0 {
        assert(found =~= text::texts(as_path@));
        assert(text::texts(tree@) == found.drop_last());
        assert(found.last() == as_path@.last()@);
        assert(found.drop_last().push(found.last()) =~= found);
    }
}

/// Two entries that are no directories have the same tree exactly if they are in the same
/// directory, and a directory is the tree of the entries in it.
pub proof fn law_entries_of_a_directory_share_its_tree(
    dir: Vec<String>,
    a: Vec<String>,
    b: Vec<String>,
    backup_path: Vec<String>,
    trees: (Vec<String>, Vec<String>, Vec<String>),
)
    requires
        a.len() > 0,
        b.len() > 0,
        call_ensures(place, (&dir, true, &backup_path, None::<&Vec<String>>), trees.0),
        call_ensures(place, (&a, false, &backup_path, None::<&Vec<String>>), trees.1),
        call_ensures(place, (&b, false, &backup_path, None::<&Vec<String>>), trees.2),
    ensures
        text::texts(trees.1@) == text::texts(trees.2@) <==> text::texts(a@).take(a.len() - 1)
            == text::texts(b@).take(b.len() - 1),
        text::texts(trees.1@) == text::texts(trees.0@) <==> text::texts(a@) == text::texts(
            dir@,
        ).push(text::texts(a@).last()),
{
    law_tree_is_the_directory(a, false, backup_path, trees.1);
    law_tree_is_the_directory(b, false, backup_path, trees.2);
    let (x, y) = (text::texts(a@), text::texts(b@));
    assert(x.take(a.len() - 1) =~= text::texts(trees.1@)) by {
        assert(text::texts(trees.1@).push(x.last()).take(a.len() - 1) =~= text::texts(trees.1@));
    }
    assert(y.take(b.len() - 1) =~= text::texts(trees.2@)) by {
        assert(text::texts(trees.2@).push(y.last()).take(b.len() - 1) =~= text::texts(trees.2@));
    }
    let d = text::texts(dir@);
    if x == d.push(x.last()) {
        assert(d.push(x.last()).take(a.len() - 1) =~= d);
    }
}

/// A path can be placed without a path in the snapshot exactly if it is a directory, or has a name
/// that is not the root. With a path in the snapshot, it must also be below the path of the source,
/// and then its name in the snapshot counts.
pub proof fn law_what_can_be_placed(
    path: Vec<String>,
    is_dir: bool,
    backup_path: Vec<String>,
    as_path: Vec<String>,
    without: bool,
    with: bool,
)
    requires
        call_ensures(is_placeable, (&path, is_dir, &backup_path, None::<&Vec<String>>), without),
        call_ensures(is_placeable, (&path, is_dir, &backup_path, Some(&as_path)), with),
    ensures
        without <==> is_dir || path.len() > 0 && path@.last()@ != ROOT@,
        !text::texts(backup_path@).is_prefix_of(text::texts(path@)) ==> !with,
        text::texts(backup_path@).is_prefix_of(text::texts(path@)) ==> {
            &&& is_dir ==> with
            &&& !is_dir && path.len() > backup_path.len() ==> with == (path@.last()@ != ROOT@)
            &&& !is_dir && path.len() == backup_path.len() ==> with == (as_path.len() > 0
                && as_path@.last()@ != ROOT@)
        },
{
    let whole = text::texts(path@);
    assert(whole.len() == path.len());
    if path.len() > 0 {
        assert(whole.last() == path@.last()@);
    }
    if text::texts(backup_path@).is_prefix_of(whole) {
        let rest = whole.skip(backup_path@.len() as int);
        let found = snapshot_path(whole, text::texts(backup_path@), Some(text::texts(as_path@)));
        assert(text::texts(backup_path@).len() == backup_path@.len());
        if path.len() > backup_path.len() {
            assert(rest.last() == whole.last());
            assert(found.last() == rest.last());
        } else {
            assert(found =~= text::texts(as_path@));
            if as_path.len() > 0 {
                assert(found.last() == as_path@.last()@);
            }
        }
    }
}

/// What [`Archiver::entry`] gives to the next stage is the entry itself, with its directory as the
/// tree, or with its own path if it is a directory. An archiver that kept no error lets each entry
/// of the source pass, and does not change. An archiver that kept an error lets none pass.
pub proof fn law_entry_passes_to_its_directory<S, N>(
    archiver: &mut Archiver<S>,
    entry: SourceEntry<N>,
    backup_path: Vec<String>,
    as_path: Option<&Vec<String>>,
    rest: Seq<Seq<char>>,
    r: Decision<(Vec<String>, SourceEntry<N>)>,
)
    requires
        call_ensures(
            Archiver::<S>::entry::<N>,
            (archiver, Ok::<SourceEntry<N>, RusticError>(entry), &backup_path, as_path),
            r,
        ),
        rest.len() > 0,
        as_path is Some ==> rest[0] != ROOT@,
        as_path is Some ==> text::texts(entry.path@) == text::texts(backup_path@) + rest,
        as_path is None ==> text::texts(entry.path@) == rest,
    ensures
        *final(archiver) == *old(archiver),
        old(archiver).first_error.error is Some ==> r is Stop,
        old(archiver).first_error.error is None ==> {
            let found = match as_path {
                Some(base) => text::texts(base@) + rest,
                None => rest,
            };
            &&& r is Pass
            &&& r->Pass_0.1 == entry
            &&& entry.is_dir ==> text::texts(r->Pass_0.0@) == found
            &&& !entry.is_dir ==> text::texts(r->Pass_0.0@).push(rest.last()) == found
        },
{
    if old(archiver).first_error.error is None {
        let whole = text::texts(entry.path@);
        let found = match as_path {
            Some(base) => text::texts(base@) + rest,
            None => rest,
        };
        if as_path is Some {
            assert(whole.skip(text::texts(backup_path@).len() as int) =~= rest);
        }
        assert(found.last() == rest.last());
        assert(found.drop_last().push(found.last()) =~= found);
    }
}

/// All stages treat an error alike. With `fail_on_read_error` the backup skips the entry, and keeps
/// the error if it is the first one. Without, the backup warns about this error, and keeps nothing.
/// The settings stay as they are.
pub proof fn law_stages_treat_errors_alike<S, N, T>(
    a: &mut Archiver<S>,
    b: &mut Archiver<S>,
    c: &mut Archiver<S>,
    err: RusticError,
    backup_path: Vec<String>,
    as_path: Option<&Vec<String>>,
    entry: Decision<(Vec<String>, SourceEntry<N>)>,
    parent: Decision<T>,
    file: Decision<T>,
)
    requires
        *old(a) == *old(c),
        *old(b) == *old(c),
        old(c).first_error.error is None,
        call_ensures(
            Archiver::<S>::entry::<N>,
            (a, Err::<SourceEntry<N>, RusticError>(err), &backup_path, as_path),
            entry,
        ),
        call_ensures(
            Archiver::<S>::parent_result::<T>,
            (b, Err::<T, TreeStackEmptyError>(TreeStackEmptyError)),
            parent,
        ),
        call_ensures(Archiver::<S>::file_result::<T>, (c, Err::<T, RusticError>(err)), file),
    ensures
        old(c).fail_on_read_error ==> {
            &&& entry is Skip
            &&& parent is Skip
            &&& file is Skip
            &&& final(a).first_error.error == Some(err)
            &&& final(b).first_error.error == Some(RusticError::TreeStackEmpty)
            &&& final(c).first_error.error == Some(err)
        },
        !old(c).fail_on_read_error ==> {
            &&& entry is Warn && entry->Warn_0 == err
            &&& parent is Warn && parent->Warn_0 == RusticError::TreeStackEmpty
            &&& file is Warn && file->Warn_0 == err
            &&& final(a).first_error.error is None
            &&& final(b).first_error.error is None
            &&& final(c).first_error.error is None
        },
        final(a).snap == old(a).snap && final(a).parent_tree == old(a).parent_tree && final(a).fail_on_read_error == old(a).fail_on_read_error && final(a).threads == old(a).threads,
{
}

/// A later error of a file does not replace the first one.
pub proof fn law_later_error_replaces_nothing<S, T>(
    archiver: &mut Archiver<S>,
    err: RusticError,
    r: Decision<T>,
)
    requires
        old(archiver).first_error.error is Some,
        call_ensures(Archiver::<S>::file_result::<T>, (archiver, Err::<T, RusticError>(err)), r),
    ensures
        final(archiver).first_error.error == old(archiver).first_error.error,
{
}

/// A backup whose index is complete saves the snapshot file, except if it shall skip an identical
/// snapshot, and the tree of the parent snapshot is the tree of this snapshot. Either way the
/// snapshot has the complete summary, and its tree and its ID stay as they are.
pub proof fn law_only_identical_snapshots_are_skipped<S>(
    finish: Finish<S>,
    summary: Summary<S>,
    next: FinishStep<S>,
)
    requires
        call_ensures(
            Finish::<S>::index_done,
            (finish, Ok::<Summary<S>, RusticError>(summary)),
            next,
        ),
    ensures
        finish.skip_identical_parent && finish.parent_tree == Some(finish.snap.tree) ==> {
            &&& next is Done
            &&& next->Done_0.tree == finish.snap.tree
            &&& next->Done_0.id == finish.snap.id
            &&& next->Done_0.summary == Some(summary)
        },
        !finish.skip_identical_parent || finish.parent_tree != Some(finish.snap.tree) ==> {
            &&& next is SaveSnapshot
            &&& next->SaveSnapshot_0.snap.tree == finish.snap.tree
            &&& next->SaveSnapshot_0.snap.id == finish.snap.id
            &&& next->SaveSnapshot_0.snap.summary == Some(summary)
        },
{
}

/// A backup determines the size of its source exactly if it shall, and someone sees the progress. An
/// error of the size is only a warning.
pub proof fn law_size_is_for_the_progress(
    no_scan: bool,
    is_hidden: bool,
    scans: bool,
    size: RusticResult<Option<u64>>,
    r: SizeResult,
)
    requires
        call_ensures(scans_size, (no_scan, is_hidden), scans),
        call_ensures(size_result, (size,), r),
    ensures
        no_scan || is_hidden ==> !scans,
        !no_scan && !is_hidden ==> scans,
        size is Err ==> r is Warn && r->Warn_0 == size->Err_0,
        size is Ok && size->Ok_0 is None ==> r is Nothing,
        size is Ok && size->Ok_0 is Some ==> r is SetLength && Some(r->SetLength_0) == size->Ok_0,
{
}

/// A backup fails with the error of the tree stage, or else with the kept error of an entry. It
/// completes its files only if there is neither, with its snapshot and its parent tree.
pub proof fn law_backup_completes_without_errors<S>(
    archiver: Archiver<S>,
    stages: RusticResult<()>,
    skip_identical_parent: bool,
    r: FinishStep<S>,
)
    requires
        call_ensures(Archiver::<S>::archive, (archiver, stages, skip_identical_parent), r),
    ensures
        stages is Err ==> r is Failed && r->Failed_0 == stages->Err_0,
        stages is Ok && archiver.first_error.error is Some ==> r is Failed && Some(r->Failed_0)
            == archiver.first_error.error,
        stages is Ok && archiver.first_error.error is None ==> {
            &&& r is FinalizeFiles
            &&& r->FinalizeFiles_0.snap == archiver.snap
            &&& r->FinalizeFiles_0.parent_tree == archiver.parent_tree
            &&& r->FinalizeFiles_0.skip_identical_parent == skip_identical_parent
        },
{
}

/// A new archiver keeps its settings and the ID and the tree of its snapshot, has kept no error, and
/// its snapshot has no summary until the backup is complete. The summary for the tree stage has the
/// start of the backup, and the values of the summary of the snapshot, if it has one.
pub proof fn law_new_archiver_has_its_settings<S>(
    snap: SnapshotFile<S>,
    parent_tree: Option<TreeId>,
    fail_on_read_error: bool,
    threads: Option<u64>,
    now: Zoned,
    values: S,
    r: (Archiver<S>, Summary<S>),
)
    requires
        call_ensures(
            Archiver::<S>::new,
            (snap, parent_tree, fail_on_read_error, threads, now, values),
            r,
        ),
    ensures
        r.0.snap.id == snap.id,
        r.0.snap.tree == snap.tree,
        r.0.snap.summary is None,
        r.0.parent_tree == parent_tree,
        r.0.fail_on_read_error == fail_on_read_error,
        r.0.threads == threads,
        r.0.first_error.error is None,
        r.1.backup_start == now,
        snap.summary is None ==> r.1.values == values,
        snap.summary is Some ==> r.1.values == snap.summary->0.values,
{
}

/// A saved snapshot has the ID of its file, and keeps its tree and its summary. An error of a step
/// after the entries fails the backup with this error.
pub proof fn law_saved_snapshot_has_its_id<S>(
    finish: Finish<S>,
    id: SnapshotId,
    done: FinishStep<S>,
    err: RusticError,
    steps: (FinishStep<S>, FinishStep<S>, FinishStep<S>, FinishStep<S>),
)
    requires
        call_ensures(
            Finish::<S>::snapshot_saved,
            (finish, Ok::<SnapshotId, RusticError>(id)),
            done,
        ),
        call_ensures(Finish::<S>::files_done, (finish, Err::<(), RusticError>(err)), steps.0),
        call_ensures(
            Finish::<S>::trees_done,
            (finish, Err::<(TreeId, Summary<S>), RusticError>(err)),
            steps.1,
        ),
        call_ensures(Finish::<S>::index_done, (finish, Err::<Summary<S>, RusticError>(err)), steps.2),
        call_ensures(
            Finish::<S>::snapshot_saved,
            (finish, Err::<SnapshotId, RusticError>(err)),
            steps.3,
        ),
    ensures
        done is Done,
        done->Done_0.id == id,
        done->Done_0.tree == finish.snap.tree,
        done->Done_0.summary == finish.snap.summary,
        steps.0 is Failed && steps.0->Failed_0 == err,
        steps.1 is Failed && steps.1->Failed_0 == err,
        steps.2 is Failed && steps.2->Failed_0 == err,
        steps.3 is Failed && steps.3->Failed_0 == err,
{
}

} // verus!
