//! The state of a case of the property test.
//!
//! The caller runs each step of a case on a repository, and gives its results to the state. The
//! state decides if the step has its properties, and keeps the saved snapshots and the counts.

use vstd::prelude::*;

use crate::coverage::{self, Injected, Stats, StepName, StepOutcome};
use crate::error::BackendCall;
use crate::fault::Fault;
use crate::id::{Id, SnapshotId};
use crate::model::{self, Model, TreeState};
use crate::plan::{DestFault, FaultPlan, FaultRule, READ_ONLY_TARGETS};
use crate::sorted::{self, SortedMap};
use crate::text::{self, chars_of, owned, push_decimal};

verus! {

/// The seed of the first case, if the environment does not set it.
pub const DEFAULT_SEED: u64 = 0x0601;

/// The environment variable that sets the seed of the first case.
pub const SEED_VARIABLE: &'static str = "RUSTIC_FAULT_SEED";

/// The number of cases of a property scenario.
pub const CASES: u64 = 256;

/// The number of cases for each fixture of the scenario with small volumes.
pub const VOLUME_CASES: u64 = 128;

/// The snapshot files that the backend holds.
pub type SnapshotSet = SortedMap<Id, ()>;

/// Gives the set of the snapshot files `ids`.
pub fn snapshot_set(ids: &Vec<Id>) -> (r: SnapshotSet)
    ensures
        r@.dom() == ids@.to_set(),
{
    let mut set: SnapshotSet = SortedMap::new();
    let n: usize = ids.len();
    assert(set@.dom() =~= ids@.take(0).to_set());
    for i in 0..n
        invariant
            n == ids.len(),
            set@.dom() == ids@.take(i as int).to_set(),
    {
        let ghost before = set@.dom();
        let _ = set.insert(ids[i], ());
        proof {
            let prefix = ids@.take(i as int);
            let next = ids@.take(i + 1);
            assert(next =~= prefix.push(ids@[i as int]));
            assert forall|id: Id| set@.dom().contains(id) <==> next.to_set().contains(id) by {
                if next.contains(id) {
                    let k = choose|k: int| 0 <= k < next.len() && next[k] == id;
                    if k < i {
                        assert(prefix[k] == id);
                        assert(prefix.contains(id));
                    }
                }
                if before.contains(id) {
                    assert(prefix.contains(id));
                    let k = choose|k: int| 0 <= k < prefix.len() && prefix[k] == id;
                    assert(next[k] == id);
                }
                assert(next[i as int] == ids@[i as int]);
            }
            assert(set@.dom() =~= next.to_set());
        }
    }
    assert(ids@.take(n as int) =~= ids@);
    set
}

/// Tells if each file of `a` is in `b`.
fn is_within(a: &SnapshotSet, b: &SnapshotSet) -> (r: bool)
    ensures
        r == a@.dom().subset_of(b@.dom()),
{
    a.reveal_order();
    let n: usize = a.len();
    for i in 0..n
        invariant
            n == a.sequence().len(),
            forall|j: int| 0 <= j < n ==> a@.contains_key((#[trigger] a.sequence()[j]).0),
            forall|j: int| 0 <= j < i ==> b@.contains_key((#[trigger] a.sequence()[j]).0),
    {
        let (id, _) = a.entry(i);
        if !b.contains_key(id) {
            assert(a@.contains_key(a.sequence()[i as int].0));
            assert(a@.dom().contains(*id) && !b@.dom().contains(*id));
            return false;
        }
    }
    proof {
        assert forall|id: Id| a@.dom().contains(id) implies b@.dom().contains(id) by {
            let k = choose|k: int| sorted::key_at(a.sequence(), id, k);
            assert(sorted::key_at(a.sequence(), id, k));
        }
    }
    true
}

/// Tells if `a` and `b` hold the same files.
pub fn same_snapshots(a: &SnapshotSet, b: &SnapshotSet) -> (r: bool)
    ensures
        r == (a@.dom() == b@.dom()),
{
    let r = is_within(a, b) && is_within(b, a);
    proof {
        if r {
            assert(a@.dom() =~= b@.dom());
        }
    }
    r
}

/// What a restore of a step did.
#[derive(Debug)]
pub enum Restored {
    /// The restore failed.
    Failed,
    /// The restore succeeded, and gave this tree. An error says why the tree cannot be read.
    Succeeded(Result<Model, String>),
}

/// A step of the restore of one snapshot.
#[derive(Debug)]
pub enum RestoreStep {
    /// Open the repository, and load its index.
    Open,
    /// Find the snapshot and its root node.
    FindNode,
    /// Open the destination, and make the plan of the restore.
    Prepare,
    /// Give the directory `path` of the destination the permissions `mode`, if it is a directory.
    SetMode {
        /// The directory, relative to the destination.
        path: &'static str,
        /// The permission bits.
        mode: u32,
    },
    /// Restore the plan.
    Restore,
    /// The restore is complete.
    Done,
    /// The restore failed with this error of the repository.
    Failed(String),
}

/// The permissions of a read-only directory.
pub const READ_ONLY_MODE: u32 = 0o555;

/// Whether `next` is the step after `step` of a restore with the destination fault `dest`, if `step`
/// succeeded.
pub open spec fn restore_follows(dest: DestFault, step: RestoreStep, next: RestoreStep) -> bool {
    match step {
        RestoreStep::Open => next == RestoreStep::FindNode,
        RestoreStep::FindNode => next == RestoreStep::Prepare,
        RestoreStep::Prepare => match dest {
            DestFault::ReadOnlyDir(index) => next == RestoreStep::SetMode {
                path: READ_ONLY_TARGETS@[index as int],
                mode: READ_ONLY_MODE,
            },
            _ => next == RestoreStep::Restore,
        },
        RestoreStep::SetMode { .. } => next == RestoreStep::Restore,
        RestoreStep::Restore => next == RestoreStep::Done,
        RestoreStep::Done => next == RestoreStep::Done,
        RestoreStep::Failed(err) => next == RestoreStep::Failed(err),
    }
}

/// Gives the step after `step` of a restore with the destination fault `dest`.
///
/// # Arguments
///
/// * `dest` - The fault of the destination. A volume is there before the restore starts.
/// * `step` - The step
/// * `result` - The result of the step, or the error of the repository
pub fn restore_into(dest: DestFault, step: RestoreStep, result: Result<(), String>) -> (r:
    RestoreStep)
    requires
        dest matches DestFault::ReadOnlyDir(index) ==> index < READ_ONLY_TARGETS@.len(),
    ensures
        match (step, result) {
            (RestoreStep::Done, _) => r == step,
            (RestoreStep::Failed(_), _) => r == step,
            (_, Err(err)) => r == RestoreStep::Failed(err),
            (_, Ok(_)) => restore_follows(dest, step, r),
        },
{
    match (&step, result) {
        (RestoreStep::Done, _) | (RestoreStep::Failed(_), _) => {
            return step;
        },
        (_, Err(err)) => {
            return RestoreStep::Failed(err);
        },
        (_, Ok(())) => {},
    }
    match step {
        RestoreStep::Open => RestoreStep::FindNode,
        RestoreStep::FindNode => RestoreStep::Prepare,
        RestoreStep::Prepare => match dest {
            DestFault::ReadOnlyDir(index) => RestoreStep::SetMode {
                path: READ_ONLY_TARGETS[index],
                mode: READ_ONLY_MODE,
            },
            DestFault::Nothing | DestFault::Volume(_) => RestoreStep::Restore,
        },
        RestoreStep::SetMode { .. } => RestoreStep::Restore,
        RestoreStep::Restore => RestoreStep::Done,
        RestoreStep::Done => RestoreStep::Done,
        RestoreStep::Failed(err) => RestoreStep::Failed(err),
    }
}

/// The state of a case: the saved snapshots, and the counts.
#[derive(Debug)]
pub struct State {
    /// The snapshots that the backend holds, with the saved trees.
    pub saved: Vec<(SnapshotId, Model)>,
    /// The number of panics in this process when the case started.
    pub panics: u64,
    /// The counts of the results.
    pub stats: Stats,
}

/// The saved snapshots.
pub open spec fn saved_of(saved: Seq<(SnapshotId, Model)>) -> Seq<(Id, TreeState)> {
    saved.map_values(|snapshot: (SnapshotId, Model)| (snapshot.0.0, snapshot.1@))
}

/// The IDs of the saved snapshots.
pub open spec fn saved_ids(saved: Seq<(Id, TreeState)>) -> Set<Id> {
    saved.map_values(|snapshot: (Id, TreeState)| snapshot.0).to_set()
}

/// The counts with one more result of the step `step`.
pub open spec fn counts_with(counts: Seq<usize>, step: StepName, outcome: StepOutcome) -> Seq<usize> {
    let at = coverage::slot(step, outcome);
    counts.update(at, (counts[at] + 1) as usize)
}

/// The outcome of a step that succeeded or failed.
pub open spec fn outcome_of(ok: bool) -> StepOutcome {
    if ok {
        StepOutcome::Succeeded
    } else {
        StepOutcome::Failed
    }
}

impl State {
    /// The saved snapshots, with their trees.
    pub open spec fn snapshots(&self) -> Seq<(Id, TreeState)> {
        saved_of(self.saved@)
    }

    /// Whether no count is at its maximum.
    pub open spec fn can_count(&self) -> bool {
        self.stats.can_count()
    }

    /// Tells if no count is at its maximum.
    pub fn has_room(&self) -> (r: bool)
        ensures
            r == self.can_count(),
    {
        self.stats.has_room()
    }

    /// Creates the state of a case.
    ///
    /// # Arguments
    ///
    /// * `panics` - The number of panics in this process
    pub fn new(panics: u64) -> (r: Self)
        ensures
            r.snapshots() == Seq::<(Id, TreeState)>::empty(),
            r.panics == panics,
            r.stats.counts() == Seq::new(20, |i: int| 0usize),
    {
        let r = State { saved: Vec::new(), panics, stats: Stats::new() };
        assert(r.snapshots() =~= Seq::empty());
        r
    }

    /// Checks the end of a step: its threads stopped, and no thread panicked.
    ///
    /// # Arguments
    ///
    /// * `released` - Whether the threads of the step stopped in time
    /// * `panics` - The number of panics in this process now
    ///
    /// # Errors
    ///
    /// * If a thread of the step did not stop.
    /// * If a thread panicked.
    pub fn settle(&self, released: Result<(), String>, panics: u64) -> (r: Result<(), String>)
        requires
            panics >= self.panics,
        ensures
            match (released, r) {
                (Err(err), _) => r == Err::<(), String>(err),
                (Ok(_), Ok(_)) => panics == self.panics,
                (Ok(_), Err(message)) => panics > self.panics && message@ == text::decimal(
                    (panics - self.panics) as nat,
                ) + " threads panicked."@,
            },
    {
        match released {
            Err(err) => Err(err),
            Ok(()) => {
                let new: u64 = panics - self.panics;
                if new > 0 {
                    let mut message = text::decimal_text(new);
                    message.append(" threads panicked.");
                    Err(message)
                } else {
                    Ok(())
                }
            },
        }
    }

    /// Counts the result of the creation of the repository.
    ///
    /// # Returns
    ///
    /// Whether the caller creates the repository again, without faults.
    pub fn create(&mut self, ok: bool) -> (r: bool)
        requires
            old(self).can_count(),
        ensures
            r == !ok,
            final(self).saved == old(self).saved,
            final(self).panics == old(self).panics,
            final(self).stats.counts() == counts_with(
                old(self).stats.counts(),
                StepName::Init,
                outcome_of(ok),
            ),
    {
        assert(self.stats.count_of(StepName::Init, outcome_of(ok)) < usize::MAX);
        self.stats.count(StepName::Init, ok);
        !ok
    }

    /// Checks the properties of a backup, and keeps a new snapshot.
    ///
    /// # Arguments
    ///
    /// * `result` - The snapshot of the backup, or its error
    /// * `model` - The saved tree, or `None` for a tree with an unreadable entry
    /// * `before` - The snapshot files before the backup
    /// * `after` - The snapshot files after the backup
    ///
    /// # Errors
    ///
    /// * If the backup of a tree with an unreadable entry succeeds.
    /// * If a failed backup leaves a snapshot file, or a successful backup does not leave its
    ///   snapshot file.
    pub fn backup(
        &mut self,
        result: Result<SnapshotId, String>,
        model: Option<Model>,
        before: &SnapshotSet,
        after: &SnapshotSet,
    ) -> (r: Result<(), String>)
        requires
            old(self).can_count(),
        ensures
            final(self).panics == old(self).panics,
            final(self).stats.counts() == counts_with(
                old(self).stats.counts(),
                StepName::Backup,
                outcome_of(result is Ok),
            ),
            r is Ok <==> match (result, model) {
                (Ok(id), Some(_)) => after@.dom() == before@.dom().insert(id.0),
                (Ok(_), None) => false,
                (Err(_), _) => after@.dom() == before@.dom(),
            },
            final(self).snapshots() == if r is Ok && result is Ok {
                old(self).snapshots().push((result->Ok_0.0, model->Some_0@))
            } else {
                old(self).snapshots()
            },
            r matches Err(message) ==> message@ == match (result, model) {
                (Ok(_), Some(_)) =>
                    "The snapshot files after the backup are not the files before and the new snapshot."@,
                (Ok(_), None) => "The backup of a tree with an unreadable entry succeeded."@,
                (Err(err), _) =>
                    "The failed backup changed the snapshot files. The error was:\n"@ + err@,
            },
    {
        let ok = result.is_ok();
        assert(self.stats.count_of(StepName::Backup, outcome_of(ok)) < usize::MAX);
        self.stats.count(StepName::Backup, ok);
        match (result, model) {
            (Ok(id), Some(model)) => {
                let mut expected = snapshot_set(&keys_of(before));
                let _ = expected.insert(id.0, ());
                assert(expected@.dom() =~= before@.dom().insert(id.0));
                if !same_snapshots(after, &expected) {
                    return Err(
                        owned(
                            "The snapshot files after the backup are not the files before and the new snapshot.",
                        ),
                    );
                }
                self.saved.push((id, model));
                assert(self.snapshots() =~= old(self).snapshots().push((id.0, model@)));
                Ok(())
            },
            (Ok(_), None) => Err(owned("The backup of a tree with an unreadable entry succeeded.")),
            (Err(err), _) => {
                if same_snapshots(after, before) {
                    Ok(())
                } else {
                    let mut message = owned(
                        "The failed backup changed the snapshot files. The error was:\n",
                    );
                    message.append(err.as_str());
                    Err(message)
                }
            },
        }
    }

    /// Selects a saved snapshot for the step `step`, or counts the step as skipped.
    ///
    /// # Returns
    ///
    /// The index and the ID of the snapshot, or `None` if there is no saved snapshot.
    pub fn select(&mut self, step: StepName, pick: usize) -> (r: Option<(usize, SnapshotId)>)
        requires
            old(self).can_count(),
        ensures
            final(self).saved == old(self).saved,
            final(self).panics == old(self).panics,
            match r {
                Some((index, id)) => {
                    &&& old(self).saved.len() > 0
                    &&& index == pick % old(self).saved.len()
                    &&& index < old(self).saved.len()
                    &&& id == old(self).saved@[index as int].0
                    &&& final(self).stats == old(self).stats
                },
                None => {
                    &&& old(self).saved.len() == 0
                    &&& final(self).stats.counts() == counts_with(
                        old(self).stats.counts(),
                        step,
                        StepOutcome::Skipped,
                    )
                },
            },
    {
        if self.saved.len() == 0 {
            assert(self.stats.count_of(step, StepOutcome::Skipped) < usize::MAX);
            self.stats.add(step, StepOutcome::Skipped);
            None
        } else {
            let index: usize = pick % self.saved.len();
            Some((index, self.saved[index].0))
        }
    }

    /// Checks the properties of a restore of the saved snapshot with the index `index`.
    ///
    /// # Arguments
    ///
    /// * `index` - The index of the snapshot
    /// * `restored` - What the restore did
    /// * `removable` - Whether the caller could make the destination removable
    /// * `has_rules` - Whether the restore had a fault plan
    /// * `dest` - The fault of the destination
    ///
    /// # Errors
    ///
    /// * If the caller could not make the destination removable.
    /// * If a successful restore does not give the saved tree.
    pub fn restore(
        &mut self,
        index: usize,
        restored: Restored,
        removable: Result<(), String>,
        has_rules: bool,
        dest: DestFault,
    ) -> (r: Result<(), String>)
        requires
            old(self).can_count(),
            index < old(self).saved.len(),
        ensures
            final(self).saved == old(self).saved,
            final(self).panics == old(self).panics,
            ({
                let counts = counts_with(
                    old(self).stats.counts(),
                    StepName::Restore,
                    outcome_of(restored is Succeeded),
                );
                final(self).stats.counts() == if r is Ok && restored is Succeeded && (has_rules
                    || !(dest is Nothing)) {
                    counts_with(counts, StepName::Restore, StepOutcome::SucceededWithFaults)
                } else {
                    counts
                }
            }),
            match (removable, restored) {
                (Err(err), _) => r == Err::<(), String>(err),
                (Ok(_), Restored::Failed) => r is Ok,
                (Ok(_), Restored::Succeeded(Err(err))) => r == Err::<(), String>(err),
                (Ok(_), Restored::Succeeded(Ok(found))) => {
                    let saved = old(self).snapshots()[index as int].1;
                    match r {
                        Ok(_) => found@ == saved,
                        Err(message) => found@ != saved && model::tells_difference(
                            saved,
                            found@,
                            message@,
                        ),
                    }
                },
            },
    {
        let ok = match &restored {
            Restored::Failed => false,
            Restored::Succeeded(_) => true,
        };
        assert(self.stats.count_of(StepName::Restore, outcome_of(ok)) < usize::MAX);
        assert(self.stats.count_of(StepName::Restore, StepOutcome::SucceededWithFaults) < usize::MAX);
        self.stats.count(StepName::Restore, ok);
        let checked = match restored {
            Restored::Failed => Ok(()),
            Restored::Succeeded(Err(err)) => Err(err),
            Restored::Succeeded(Ok(found)) => self.saved[index].1.check(&found),
        };
        match removable {
            Err(err) => {
                return Err(err);
            },
            Ok(()) => {},
        }
        match checked {
            Err(err) => {
                return Err(err);
            },
            Ok(()) => {},
        }
        let no_dest_fault = match dest {
            DestFault::Nothing => true,
            DestFault::ReadOnlyDir(_) | DestFault::Volume(_) => false,
        };
        if ok && (has_rules || !no_dest_fault) {
            self.stats.add(StepName::Restore, StepOutcome::SucceededWithFaults);
        }
        Ok(())
    }

    /// Checks the properties of a delete of the saved snapshot with the index `index`, and removes
    /// the snapshot from the saved snapshots if its file is gone.
    ///
    /// # Errors
    ///
    /// * If a successful delete leaves the snapshot file.
    pub fn delete(&mut self, index: usize, ok: bool, snapshots: &SnapshotSet) -> (r: Result<
        (),
        String,
    >)
        requires
            old(self).can_count(),
            index < old(self).saved.len(),
        ensures
            final(self).panics == old(self).panics,
            final(self).stats.counts() == counts_with(
                old(self).stats.counts(),
                StepName::Delete,
                outcome_of(ok),
            ),
            ({
                let present = snapshots@.contains_key(old(self).snapshots()[index as int].0);
                &&& r is Ok <==> !(ok && present)
                &&& final(self).snapshots() == if present {
                    old(self).snapshots()
                } else {
                    old(self).snapshots().remove(index as int)
                }
            }),
            r matches Err(message) ==> message@
                == "The delete succeeded, but the snapshot file is still there."@,
    {
        assert(self.stats.count_of(StepName::Delete, outcome_of(ok)) < usize::MAX);
        self.stats.count(StepName::Delete, ok);
        let present = snapshots.contains_key(&self.saved[index].0.0);
        if ok && present {
            return Err(owned("The delete succeeded, but the snapshot file is still there."));
        }
        if !present {
            let _ = self.saved.remove(index);
            assert(self.snapshots() =~= old(self).snapshots().remove(index as int));
        }
        Ok(())
    }

    /// Counts the result of a prune.
    pub fn prune(&mut self, ok: bool)
        requires
            old(self).can_count(),
        ensures
            final(self).saved == old(self).saved,
            final(self).panics == old(self).panics,
            final(self).stats.counts() == counts_with(
                old(self).stats.counts(),
                StepName::Prune,
                outcome_of(ok),
            ),
    {
        assert(self.stats.count_of(StepName::Prune, outcome_of(ok)) < usize::MAX);
        self.stats.count(StepName::Prune, ok);
    }

    /// Checks that the backend holds exactly the saved snapshots.
    ///
    /// # Errors
    ///
    /// * If the backend holds other snapshot files.
    pub fn check_repository(&self, snapshots: &SnapshotSet) -> (r: Result<(), String>)
        ensures
            r is Ok <==> snapshots@.dom() == saved_ids(self.snapshots()),
            r matches Err(message) ==> message@
                == "The backend does not hold exactly the saved snapshots."@,
    {
        let mut ids: Vec<Id> = Vec::new();
        let n: usize = self.saved.len();
        for i in 0..n
            invariant
                n == self.saved.len(),
                ids.len() == i,
                forall|j: int| 0 <= j < i ==> #[trigger] ids@[j] == self.snapshots()[j].0,
        {
            ids.push(self.saved[i].0.0);
        }
        assert(ids@ =~= self.snapshots().map_values(|snapshot: (Id, TreeState)| snapshot.0));
        if same_snapshots(snapshots, &snapshot_set(&ids)) {
            Ok(())
        } else {
            Err(owned("The backend does not hold exactly the saved snapshots."))
        }
    }

    /// Checks the restore without faults of the saved snapshot with the index `index`.
    ///
    /// # Arguments
    ///
    /// * `index` - The index of the snapshot
    /// * `restored` - The restored tree, or the error of the restore. An inner error says why the
    ///   tree cannot be read.
    /// * `removable` - Whether the caller could make the destination removable
    ///
    /// # Errors
    ///
    /// * If the restore failed, or did not give the saved tree.
    pub fn check_restored(
        &self,
        index: usize,
        restored: Result<Result<Model, String>, String>,
        removable: Result<(), String>,
    ) -> (r: Result<(), String>)
        requires
            index < self.saved.len(),
        ensures
            match (removable, restored) {
                (Err(err), _) => r == Err::<(), String>(err),
                (Ok(_), Err(err)) => r matches Err(message) && message@
                    == "The restore without faults failed:\n"@ + err@,
                (Ok(_), Ok(Err(err))) => r == Err::<(), String>(err),
                (Ok(_), Ok(Ok(found))) => {
                    let saved = self.snapshots()[index as int].1;
                    match r {
                        Ok(_) => found@ == saved,
                        Err(message) => found@ != saved && model::tells_difference(
                            saved,
                            found@,
                            message@,
                        ),
                    }
                },
            },
    {
        let checked = match restored {
            Err(err) => {
                let mut message = owned("The restore without faults failed:\n");
                message.append(err.as_str());
                Err(message)
            },
            Ok(Err(err)) => Err(err),
            Ok(Ok(found)) => self.saved[index].1.check(&found),
        };
        match removable {
            Err(err) => Err(err),
            Ok(()) => checked,
        }
    }
}

/// Gives the files of `set`.
fn keys_of(set: &SnapshotSet) -> (r: Vec<Id>)
    ensures
        r@.to_set() == set@.dom(),
{
    set.reveal_order();
    let mut ids: Vec<Id> = Vec::new();
    let n: usize = set.len();
    for i in 0..n
        invariant
            n == set.sequence().len(),
            ids.len() == i,
            forall|j: int| 0 <= j < i ==> #[trigger] ids@[j] == set.sequence()[j].0,
    {
        let (id, _) = set.entry(i);
        ids.push(*id);
    }
    proof {
        let sequence = set.sequence();
        assert forall|id: Id| ids@.to_set().contains(id) <==> set@.dom().contains(id) by {
            if ids@.contains(id) {
                let i = choose|i: int| 0 <= i < ids@.len() && ids@[i] == id;
                assert(set@.contains_key(sequence[i].0));
            }
            if set@.dom().contains(id) {
                let i = choose|i: int| sorted::key_at(sequence, id, i);
                assert(sorted::key_at(sequence, id, i));
                assert(ids@[i] == id);
            }
        }
        assert(ids@.to_set() =~= set@.dom());
    }
    ids
}

/// The faults of a step, and the counts of the faults that it injected.
#[derive(Debug)]
pub struct Injection {
    /// The faults of the step.
    pub plan: FaultPlan,
    /// The numbers of injected faults of the case.
    pub injected: Injected,
}

impl Injection {
    /// Starts the faults of `rules`, and goes on with the counts `injected`.
    pub fn inject(rules: &Vec<FaultRule>, injected: Injected) -> (r: Self)
        ensures
            r.plan.rules() == rules@,
            r.plan.counts() == Seq::new(rules@.len(), |i: int| 0usize),
            r.injected == injected,
    {
        Injection { plan: FaultPlan::new(rules), injected }
    }

    /// Gives the fault for `call`, and counts it.
    pub fn fault_for(&mut self, call: &BackendCall) -> (r: Option<Fault>)
        ensures
            final(self).plan.rules() == old(self).plan.rules(),
            crate::plan::first_decides(
                old(self).plan.rules(),
                old(self).plan.counts(),
                *call,
                r,
            ),
            forall|i: int|
                0 <= i < old(self).plan.rules().len() ==> #[trigger] final(self).plan.counts()[i]
                    == if crate::plan::none_before(
                    old(self).plan.rules(),
                    old(self).plan.counts(),
                    *call,
                    i,
                ) {
                    old(self).plan.rules()[i].counted(*call, old(self).plan.counts()[i])
                } else {
                    old(self).plan.counts()[i]
                },
            final(self).injected.ops@ == match r {
                Some(_) => {
                    let at = coverage::op_index(call.op);
                    let ops = old(self).injected.ops@;
                    ops.update(at, coverage::next_count(ops[at]))
                },
                None => old(self).injected.ops@,
            },
            final(self).injected.faults@ == match r {
                Some(fault) => {
                    let at = coverage::fault_index(fault);
                    let faults = old(self).injected.faults@;
                    faults.update(at, coverage::next_count(faults[at]))
                },
                None => old(self).injected.faults@,
            },
    {
        let fault = self.plan.fault_for(call);
        if let Some(fault) = fault {
            self.injected.count(call, fault);
        }
        fault
    }
}

/// Whether `c` is a decimal digit.
pub open spec fn is_digit(c: char) -> bool {
    '0' <= c <= '9'
}

/// The number that the decimal digits `digits` give.
pub open spec fn number_of(digits: Seq<char>) -> nat
    decreases digits.len(),
{
    if digits.len() == 0 {
        0
    } else {
        10 * number_of(digits.drop_last()) + (digits.last() as nat - '0' as nat) as nat
    }
}

/// The digits of the text of a number, without its sign.
pub open spec fn unsigned_part(text: Seq<char>) -> Seq<char> {
    if text.len() > 0 && text[0] == '+' {
        text.skip(1)
    } else {
        text
    }
}

/// Whether `text` is the text of a number from 0 to `u64::MAX`.
pub open spec fn is_number(text: Seq<char>) -> bool {
    let digits = unsigned_part(text);
    &&& digits.len() > 0
    &&& forall|i: int| 0 <= i < digits.len() ==> is_digit(#[trigger] digits[i])
    &&& number_of(digits) <= u64::MAX
}

proof fn lemma_number_grows(digits: Seq<char>, n: int)
    requires
        0 <= n <= digits.len(),
        forall|i: int| 0 <= i < digits.len() ==> is_digit(#[trigger] digits[i]),
    ensures
        number_of(digits.take(n)) <= number_of(digits),
    decreases digits.len(),
{
    if n == digits.len() {
        assert(digits.take(n) =~= digits);
    } else {
        let shorter = digits.drop_last();
        assert forall|i: int| 0 <= i < shorter.len() implies is_digit(#[trigger] shorter[i]) by {
            assert(is_digit(digits[i]));
        }
        lemma_number_grows(shorter, n);
        assert(shorter.take(n) =~= digits.take(n));
        assert(is_digit(digits[digits.len() - 1]));
    }
}

/// Gives the number that `text` is the text of.
pub fn parse_seed(text: &str) -> (r: Option<u64>)
    ensures
        match r {
            Some(n) => is_number(text@) && n == number_of(unsigned_part(text@)),
            None => !is_number(text@),
        },
{
    let chars = chars_of(text);
    let start: usize = if chars.len() > 0 && chars[0] == '+' {
        1
    } else {
        0
    };
    let ghost digits = unsigned_part(text@);
    assert(digits =~= chars@.skip(start as int));
    if chars.len() == start {
        return None;
    }
    let n: usize = chars.len();
    let mut value: u64 = 0;
    assert(digits.take(0) =~= Seq::empty());
    for i in start..n
        invariant
            start <= n,
            n == chars.len(),
            digits == chars@.skip(start as int),
            digits == unsigned_part(text@),
            value == number_of(digits.take(i - start)),
            forall|j: int| 0 <= j < i - start ==> is_digit(#[trigger] digits[j]),
    {
        let c = chars[i];
        assert(digits[i - start] == c);
        if !('0' <= c && c <= '9') {
            assert(!is_digit(digits[i - start]));
            return None;
        }
        let digit: u64 = c as u64 - 48;
        proof {
            let next = digits.take(i - start + 1);
            assert(next.drop_last() =~= digits.take(i - start));
            assert(next.last() == c);
            assert(number_of(next) == 10 * value + digit);
            if is_number(text@) {
                lemma_number_grows(digits, i - start + 1);
            }
        }
        if value > (u64::MAX - digit) / 10 {
            assert(10 * value + digit > u64::MAX);
            return None;
        }
        value = 10 * value + digit;
    }
    assert(digits.take(n - start) =~= digits);
    Some(value)
}

/// Gives the seed of the first case.
///
/// # Arguments
///
/// * `variable` - The value of the environment variable [`SEED_VARIABLE`]
///
/// # Returns
///
/// The seed, or `None` if the variable is not a number.
pub fn first_seed(variable: Option<&str>) -> (r: Option<u64>)
    ensures
        match variable {
            Some(text) => match r {
                Some(n) => is_number(text@) && n == number_of(unsigned_part(text@)),
                None => !is_number(text@),
            },
            None => r == Some(DEFAULT_SEED),
        },
{
    match variable {
        Some(text) => parse_seed(text),
        None => Some(DEFAULT_SEED),
    }
}

/// The message for a case that failed.
pub open spec fn case_text(index: nat, seed: nat, err: Seq<char>) -> Seq<char> {
    "Case "@ + text::decimal(index) + " with the seed "@ + text::decimal(seed) + " failed: "@ + err
}

/// Gives the seed of the case `index` of a run whose first case has the seed `first`: each next
/// case uses the next seed.
///
/// # Returns
///
/// The seed, or `None` if it does not fit.
pub fn case_seed(first: u64, index: u64) -> (r: Option<u64>)
    ensures
        match r {
            Some(seed) => seed == first + index,
            None => first + index > u64::MAX,
        },
{
    first.checked_add(index)
}

/// Gives the message for the case with the index `index` and the seed `seed` that failed.
pub fn describe_failed_case(index: u64, seed: u64, err: &str) -> (r: String)
    ensures
        r@ == case_text(index as nat, seed as nat, err@),
{
    let mut out = owned("Case ");
    push_decimal(&mut out, index);
    out.append(" with the seed ");
    push_decimal(&mut out, seed);
    out.append(" failed: ");
    out.append(err);
    assert(out@ =~= case_text(index as nat, seed as nat, err@));
    out
}

/// After a backup that has its properties, the saved snapshots are the snapshot files of the
/// backend, if they were before.
pub proof fn law_backup_keeps_saved(
    before: Seq<(Id, TreeState)>,
    after: Seq<(Id, TreeState)>,
    new: Option<(Id, TreeState)>,
    files_before: Set<Id>,
    files_after: Set<Id>,
)
    requires
        saved_ids(before) == files_before,
        after == match new {
            Some(snapshot) => before.push(snapshot),
            None => before,
        },
        files_after == match new {
            Some(snapshot) => files_before.insert(snapshot.0),
            None => files_before,
        },
    ensures
        saved_ids(after) == files_after,
{
    if let Some(snapshot) = new {
        lemma_ids_push(before, snapshot);
    }
}

proof fn lemma_ids_push(saved: Seq<(Id, TreeState)>, snapshot: (Id, TreeState))
    ensures
        saved_ids(saved.push(snapshot)) == saved_ids(saved).insert(snapshot.0),
{
    let ids = saved.map_values(|s: (Id, TreeState)| s.0);
    let more = saved.push(snapshot).map_values(|s: (Id, TreeState)| s.0);
    assert(more =~= ids.push(snapshot.0));
    assert forall|id: Id| more.to_set().contains(id) <==> ids.to_set().insert(snapshot.0).contains(
        id,
    ) by {
        if more.contains(id) {
            let k = choose|k: int| 0 <= k < more.len() && more[k] == id;
            if k < ids.len() {
                assert(ids[k] == id);
            }
        }
        if ids.contains(id) {
            let k = choose|k: int| 0 <= k < ids.len() && ids[k] == id;
            assert(more[k] == id);
        }
        assert(more[ids.len() as int] == snapshot.0);
    }
    assert(more.to_set() =~= ids.to_set().insert(snapshot.0));
}

/// After a delete that removed the file of a saved snapshot or left all files, the saved snapshots
/// are the snapshot files of the backend, if they were before and no snapshot was saved twice.
pub proof fn law_delete_keeps_saved(
    before: Seq<(Id, TreeState)>,
    index: int,
    files_after: Set<Id>,
    after: Seq<(Id, TreeState)>,
)
    requires
        0 <= index < before.len(),
        before.map_values(|s: (Id, TreeState)| s.0).no_duplicates(),
        files_after == saved_ids(before) || files_after == saved_ids(before).remove(
            before[index].0,
        ),
        after == if files_after.contains(before[index].0) {
            before
        } else {
            before.remove(index)
        },
    ensures
        saved_ids(after) == files_after,
{
    let ids = before.map_values(|s: (Id, TreeState)| s.0);
    assert(ids[index] == before[index].0);
    assert(ids.to_set().contains(ids[index]));
    if !files_after.contains(before[index].0) {
        let fewer = after.map_values(|s: (Id, TreeState)| s.0);
        assert(fewer =~= ids.remove(index));
        assert forall|id: Id| fewer.to_set().contains(id) <==> files_after.contains(id) by {
            if fewer.contains(id) {
                let k = choose|k: int| 0 <= k < fewer.len() && fewer[k] == id;
                let k0 = if k < index {
                    k
                } else {
                    k + 1
                };
                assert(ids[k0] == id);
                assert(ids[k0] != ids[index]);
            }
            if files_after.contains(id) {
                assert(ids.contains(id));
                let k = choose|k: int| 0 <= k < ids.len() && ids[k] == id;
                if k < index {
                    assert(fewer[k] == id);
                } else {
                    assert(fewer[k - 1] == id);
                }
            }
        }
        assert(fewer.to_set() =~= files_after);
    }
}

/// A restore opens the repository, finds the snapshot, makes its plan, and then restores it. Only a
/// restore with a read-only directory changes the permissions of this directory, between the plan and
/// the restore, to permissions without a write. An error of a step ends the restore with this error.
pub proof fn law_restore_goes_step_by_step(
    dest: DestFault,
    ok: Result<(), String>,
    err: String,
    steps: (RestoreStep, RestoreStep, RestoreStep, RestoreStep, RestoreStep),
    step: RestoreStep,
    failed: RestoreStep,
)
    requires
        ok is Ok,
        dest matches DestFault::ReadOnlyDir(index) ==> index < READ_ONLY_TARGETS@.len(),
        call_ensures(restore_into, (dest, RestoreStep::Open, ok), steps.0),
        call_ensures(restore_into, (dest, steps.0, ok), steps.1),
        call_ensures(restore_into, (dest, steps.1, ok), steps.2),
        call_ensures(restore_into, (dest, steps.2, ok), steps.3),
        call_ensures(restore_into, (dest, steps.3, ok), steps.4),
        !(step is Done) && !(step is Failed),
        call_ensures(restore_into, (dest, step, Err::<(), String>(err)), failed),
    ensures
        steps.0 is FindNode,
        steps.1 is Prepare,
        !(dest is ReadOnlyDir) ==> steps.2 is Restore && steps.3 is Done && steps.4 is Done,
        dest is ReadOnlyDir ==> {
            &&& steps.2 is SetMode
            &&& steps.2->path@ == READ_ONLY_TARGETS@[dest->ReadOnlyDir_0 as int]@
            &&& steps.2->mode == 0o555
            &&& steps.3 is Restore
            &&& steps.4 is Done
        },
        failed is Failed,
        failed->Failed_0 == err,
{
}

/// A backup counts once as a success or as a failure of a backup, and in no other count. A backup that
/// has its properties and succeeded adds its snapshot with the saved tree after the saved snapshots.
/// Each other backup keeps them.
pub proof fn law_backup_counts_and_keeps(
    state: &mut State,
    result: Result<SnapshotId, String>,
    model: Option<Model>,
    before: SnapshotSet,
    after: SnapshotSet,
    r: Result<(), String>,
    step: StepName,
    outcome: StepOutcome,
)
    requires
        call_ensures(State::backup, (state, result, model, &before, &after), r),
        old(state).stats.can_count(),
        old(state).stats.counts().len() == 20,
    ensures
        final(state).stats.count_of(step, outcome) == old(state).stats.count_of(step, outcome) + if step
            == StepName::Backup && outcome == (if result is Ok {
            StepOutcome::Succeeded
        } else {
            StepOutcome::Failed
        }) {
            1int
        } else {
            0
        },
        r is Ok && result is Ok ==> {
            &&& model is Some
            &&& final(state).snapshots().len() == old(state).snapshots().len() + 1
            &&& final(state).snapshots().last() == ((result->Ok_0).0, model->0@)
            &&& final(state).snapshots().drop_last() == old(state).snapshots()
            &&& after@.contains_key((result->Ok_0).0)
        },
        !(r is Ok && result is Ok) ==> final(state).snapshots() == old(state).snapshots(),
        model is None && result is Ok ==> r is Err,
        result is Err ==> (r is Ok <==> before@.dom() == after@.dom()),
{
    assert(old(state).stats.count_of(step, outcome) < usize::MAX);
    assert(old(state).stats.count_of(StepName::Backup, outcome_of(result is Ok)) < usize::MAX);
    if r is Ok && result is Ok {
        assert(final(state).snapshots().drop_last() =~= old(state).snapshots());
        assert(after@.dom().contains((result->Ok_0).0));
    }
}

/// A restore keeps the saved snapshots. It counts once as a success or as a failure of a restore. A
/// success that had rules or a fault of the destination, and passed the check, counts as a checked
/// restore with faults too.
pub proof fn law_restore_counts(
    state: &mut State,
    index: usize,
    restored: Restored,
    removable: Result<(), String>,
    has_rules: bool,
    dest: DestFault,
    r: Result<(), String>,
)
    requires
        call_ensures(State::restore, (state, index, restored, removable, has_rules, dest), r),
        old(state).stats.can_count(),
        old(state).stats.counts().len() == 20,
        index < old(state).saved.len(),
    ensures
        final(state).saved == old(state).saved,
        ({
            let ok = restored is Succeeded;
            let (was, now) = (old(state).stats, final(state).stats);
            &&& now.count_of(StepName::Restore, StepOutcome::Succeeded) == was.count_of(
                StepName::Restore,
                StepOutcome::Succeeded,
            ) + if ok {
                1int
            } else {
                0
            }
            &&& now.count_of(StepName::Restore, StepOutcome::Failed) == was.count_of(
                StepName::Restore,
                StepOutcome::Failed,
            ) + if ok {
                0int
            } else {
                1
            }
            &&& now.count_of(StepName::Restore, StepOutcome::SucceededWithFaults) == was.count_of(
                StepName::Restore,
                StepOutcome::SucceededWithFaults,
            ) + if ok && r is Ok && (has_rules || !(dest is Nothing)) {
                1int
            } else {
                0
            }
            &&& now.count_of(StepName::Restore, StepOutcome::Skipped) == was.count_of(
                StepName::Restore,
                StepOutcome::Skipped,
            )
        }),
        removable is Err ==> r is Err,
        removable is Ok && restored is Failed ==> r is Ok,
        removable is Ok && restored is Succeeded && restored->Succeeded_0 is Err ==> r is Err,
        removable is Ok && restored is Succeeded && restored->Succeeded_0 is Ok ==> (r is Ok
            <==> restored->Succeeded_0->Ok_0@ == old(state).saved@[index as int].1@),
{
    let was = old(state).stats;
    assert(was.count_of(StepName::Restore, StepOutcome::Succeeded) < usize::MAX);
    assert(was.count_of(StepName::Restore, StepOutcome::Failed) < usize::MAX);
    assert(was.count_of(StepName::Restore, StepOutcome::SucceededWithFaults) < usize::MAX);
    assert(was.count_of(StepName::Restore, StepOutcome::Skipped) < usize::MAX);
    assert(old(state).snapshots()[index as int].1 == old(state).saved@[index as int].1@);
}

/// A delete keeps each other saved snapshot, in the same order. It keeps the deleted snapshot exactly
/// if its file is still there, and this is an error exactly if the delete succeeded.
pub proof fn law_delete_removes_only_its_snapshot(
    state: &mut State,
    index: usize,
    ok: bool,
    snapshots: SnapshotSet,
    r: Result<(), String>,
    i: int,
)
    requires
        call_ensures(State::delete, (state, index, ok, &snapshots), r),
        index < old(state).saved.len(),
        0 <= i < old(state).saved.len(),
    ensures
        ({
            let there = snapshots@.contains_key(old(state).snapshots()[index as int].0);
            let (was, now) = (old(state).snapshots(), final(state).snapshots());
            &&& r is Err <==> ok && there
            &&& there ==> now == was
            &&& !there ==> now.len() + 1 == was.len()
            &&& !there && i < index ==> now[i] == was[i]
            &&& !there && i > index ==> now[i - 1] == was[i]
        }),
{
}

/// A step selects one of the saved snapshots, or is skipped if there is none. A skipped step counts
/// as skipped, and in no other count.
pub proof fn law_select_gives_a_saved_snapshot(
    state: &mut State,
    step: StepName,
    pick: usize,
    r: Option<(usize, SnapshotId)>,
    other: StepName,
    outcome: StepOutcome,
)
    requires
        call_ensures(State::select, (state, step, pick), r),
        old(state).stats.can_count(),
        old(state).stats.counts().len() == 20,
    ensures
        r is Some <==> old(state).saved.len() > 0,
        r is Some ==> {
            let (index, id) = r->0;
            &&& index < old(state).saved.len()
            &&& exists|q: int| pick == #[trigger] (q * old(state).saved.len()) + index
            &&& id == old(state).saved@[index as int].0
            &&& final(state).stats.count_of(other, outcome) == old(state).stats.count_of(
                other,
                outcome,
            )
        },
        r is None ==> final(state).stats.count_of(other, outcome) == old(state).stats.count_of(
            other,
            outcome,
        ) + if other == step && outcome == StepOutcome::Skipped {
            1int
        } else {
            0
        },
        final(state).saved == old(state).saved,
{
    assert(old(state).stats.count_of(other, outcome) < usize::MAX);
    assert(old(state).stats.count_of(step, StepOutcome::Skipped) < usize::MAX);
    if r is Some {
        let n = old(state).saved.len() as int;
        vstd::arithmetic::div_mod::lemma_fundamental_div_mod(pick as int, n);
        let q = pick as int / n;
        vstd::arithmetic::mul::lemma_mul_is_commutative(n, q);
        assert(pick == (q * old(state).saved.len()) + pick % old(state).saved.len());
    }
}

/// The check of the repository passes exactly if each snapshot file is a saved snapshot and each saved
/// snapshot has its file.
pub proof fn law_repository_holds_the_saved(state: State, snapshots: SnapshotSet, r: Result<(), String>)
    requires
        call_ensures(State::check_repository, (&state, &snapshots), r),
    ensures
        r is Ok <==> (forall|id: Id| #[trigger]
            snapshots@.contains_key(id) <==> exists|i: int|
                0 <= i < state.saved.len() && (#[trigger] state.saved@[i]).0.0 == id),
{
    let ids = state.snapshots().map_values(|snapshot: (Id, TreeState)| snapshot.0);
    assert(saved_ids(state.snapshots()) == ids.to_set());
    assert forall|id: Id| #[trigger] ids.to_set().contains(id) <==> exists|i: int|
        0 <= i < state.saved.len() && (#[trigger] state.saved@[i]).0.0 == id by {
        if ids.contains(id) {
            let i = choose|i: int| 0 <= i < ids.len() && ids[i] == id;
            assert(state.saved@[i].0.0 == id);
        }
        if exists|i: int| 0 <= i < state.saved.len() && (#[trigger] state.saved@[i]).0.0 == id {
            let i = choose|i: int|
                0 <= i < state.saved.len() && (#[trigger] state.saved@[i]).0.0 == id;
            assert(ids[i] == id);
        }
    }
    if r is Ok {
        assert forall|id: Id| #[trigger] snapshots@.contains_key(id) <==> exists|i: int|
            0 <= i < state.saved.len() && (#[trigger] state.saved@[i]).0.0 == id by {
            assert(snapshots@.dom().contains(id) == ids.to_set().contains(id));
        }
    }
    if forall|id: Id| #[trigger]
        snapshots@.contains_key(id) <==> exists|i: int|
            0 <= i < state.saved.len() && (#[trigger] state.saved@[i]).0.0 == id {
        assert forall|id: Id| snapshots@.dom().contains(id) == ids.to_set().contains(id) by {
            assert(snapshots@.contains_key(id) <==> exists|i: int|
                0 <= i < state.saved.len() && (#[trigger] state.saved@[i]).0.0 == id);
        }
        assert(snapshots@.dom() =~= ids.to_set());
    }
}

/// The decimal text of a seed is read as this seed, with and without a sign. A text with another
/// character, an empty text and a number that does not fit are no seeds.
pub proof fn law_seed_is_read_back(
    n: u64,
    plain: &str,
    a: Option<u64>,
    signed: &str,
    b: Option<u64>,
    other: &str,
    c: Option<u64>,
    i: int,
)
    requires
        plain@ == text::decimal(n as nat),
        call_ensures(parse_seed, (plain,), a),
        signed@ == seq!['+'] + text::decimal(n as nat),
        call_ensures(parse_seed, (signed,), b),
        call_ensures(parse_seed, (other,), c),
        0 <= i < other@.len(),
        !('0' <= other@[i] <= '9'),
        i > 0 || other@[i] != '+',
    ensures
        a == Some(n),
        b == Some(n),
        c is None,
{
    text::law_decimal_has_the_value(n as nat);
    let digits = text::decimal(n as nat);
    assert(plain@[0] == digits[0]);
    assert forall|k: int| 0 <= k < digits.len() implies is_digit(#[trigger] digits[k]) by {}
    lemma_number_is_value(digits);
    assert(unsigned_part(plain@) == digits);
    assert(unsigned_part(signed@) =~= digits);
    let rest = unsigned_part(other@);
    let at = if other@[0] == '+' {
        i - 1
    } else {
        i
    };
    assert(rest[at] == other@[i]);
    assert(!is_digit(rest[at]));
}

proof fn lemma_number_is_value(digits: Seq<char>)
    requires
        forall|k: int| 0 <= k < digits.len() ==> is_digit(#[trigger] digits[k]),
    ensures
        number_of(digits) == text::value(digits, 10),
    decreases digits.len(),
{
    if digits.len() > 0 {
        let before = digits.drop_last();
        assert forall|k: int| 0 <= k < before.len() implies is_digit(#[trigger] before[k]) by {
            assert(is_digit(digits[k]));
        }
        lemma_number_is_value(before);
        assert(is_digit(digits[digits.len() - 1]));
    }
}

/// A read seed is the number of its digits, so leading zeros do not matter, and a number above the
/// maximum is no seed.
pub proof fn law_seed_is_the_number(name: &str, r: Option<u64>)
    requires
        call_ensures(parse_seed, (name,), r),
        name@.len() > 0,
        forall|k: int| 0 <= k < name@.len() ==> '0' <= #[trigger] name@[k] <= '9',
    ensures
        r is Some <==> text::value(name@, 10) <= u64::MAX,
        r is Some ==> r->0 as int == text::value(name@, 10),
{
    assert forall|k: int| 0 <= k < name@.len() implies is_digit(#[trigger] name@[k]) by {}
    assert(name@[0] != '+');
    lemma_number_is_value(name@);
}

/// A decided fault counts once for the operation of the call and once for the fault, and a call
/// without a fault counts nothing.
pub proof fn law_injection_counts_the_faults(
    injection: &mut Injection,
    call: BackendCall,
    r: Option<Fault>,
    i: int,
    j: int,
)
    requires
        call_ensures(Injection::fault_for, (injection, &call), r),
        0 <= i < coverage::OPS@.len(),
        0 <= j < crate::plan::FAULTS@.len(),
        old(injection).injected.ops@[i] < usize::MAX,
        old(injection).injected.faults@[j] < usize::MAX,
    ensures
        final(injection).injected.ops@[i] == old(injection).injected.ops@[i] + if r is Some
            && coverage::OPS@[i] == call.op {
            1int
        } else {
            0
        },
        final(injection).injected.faults@[j] == old(injection).injected.faults@[j] + if r == Some(
            crate::plan::FAULTS@[j],
        ) {
            1int
        } else {
            0
        },
{
    assert(coverage::OPS@[i] == call.op <==> i == coverage::op_index(call.op));
    if r is Some {
        assert(crate::plan::FAULTS@[j] == r->0 <==> j == coverage::fault_index(r->0));
    }
}

/// The message of a failed case tells the index and the seed of the case, and the error. The seed of a
/// case is the seed of the first case and its index.
pub proof fn law_failed_case_tells_its_seed(
    first: u64,
    index: u64,
    seed: Option<u64>,
    err: &str,
    r: String,
)
    requires
        call_ensures(case_seed, (first, index), seed),
        seed is Some,
        call_ensures(describe_failed_case, (index, seed->0, err), r),
    ensures
        seed->0 == first + index,
        text::is_substring(
            r@,
            "Case "@ + text::decimal(index as nat) + " with the seed "@ + text::decimal(
                (first + index) as nat,
            ),
        ),
        text::is_substring(r@, err@),
{
    let part = "Case "@ + text::decimal(index as nat) + " with the seed "@ + text::decimal(
        (first + index) as nat,
    );
    assert(r@ =~= (Seq::empty() + part) + (" failed: "@ + err@));
    text::lemma_substring(r@, part);
    assert(r@ =~= ((part + " failed: "@) + err@) + Seq::empty());
    text::lemma_substring(r@, err@);
}

/// A step settles exactly if its threads stopped in time and no thread panicked since the case started.
pub proof fn law_settled_step_has_no_panics(
    state: State,
    released: Result<(), String>,
    panics: u64,
    r: Result<(), String>,
)
    requires
        call_ensures(State::settle, (&state, released, panics), r),
        panics >= state.panics,
    ensures
        r is Ok <==> released is Ok && panics == state.panics,
        released is Err ==> r is Err && r->Err_0 == released->Err_0,
{
}

/// A creation of the repository and a prune count once, as a success or as a failure of their step, and
/// keep the saved snapshots. A failed creation is done again.
pub proof fn law_creation_and_prune_count(
    a: &mut State,
    b: &mut State,
    ok: bool,
    again: bool,
    step: StepName,
    outcome: StepOutcome,
)
    requires
        call_ensures(State::create, (a, ok), again),
        call_ensures(State::prune, (b, ok), ()),
        old(a).stats.can_count(),
        old(b).stats.can_count(),
        old(a).stats.counts().len() == 20,
        old(b).stats.counts().len() == 20,
    ensures
        again == !ok,
        final(a).saved == old(a).saved,
        final(b).saved == old(b).saved,
        ({
            let counted = if ok {
                StepOutcome::Succeeded
            } else {
                StepOutcome::Failed
            };
            &&& final(a).stats.count_of(step, outcome) == old(a).stats.count_of(step, outcome) + (
            if step == StepName::Init && outcome == counted {
                1int
            } else {
                0
            })
            &&& final(b).stats.count_of(step, outcome) == old(b).stats.count_of(step, outcome) + (
            if step == StepName::Prune && outcome == counted {
                1int
            } else {
                0
            })
        }),
{
    assert(old(a).stats.count_of(step, outcome) < usize::MAX);
    assert(old(b).stats.count_of(step, outcome) < usize::MAX);
    assert(old(a).stats.count_of(StepName::Init, outcome_of(ok)) < usize::MAX);
    assert(old(b).stats.count_of(StepName::Prune, outcome_of(ok)) < usize::MAX);
}

/// The check of a restore without faults passes exactly if the restore succeeded, its tree can be
/// read and is the saved tree, and the destination can be removed.
pub proof fn law_restore_gives_the_saved_tree(
    state: State,
    index: usize,
    restored: Result<Result<Model, String>, String>,
    removable: Result<(), String>,
    r: Result<(), String>,
)
    requires
        call_ensures(State::check_restored, (&state, index, restored, removable), r),
        index < state.saved.len(),
    ensures
        r is Ok <==> {
            &&& removable is Ok
            &&& restored is Ok
            &&& restored->Ok_0 is Ok
            &&& restored->Ok_0->Ok_0@ == state.saved@[index as int].1@
        },
{
    assert(state.snapshots()[index as int].1 == state.saved@[index as int].1@);
}

/// Two sets of snapshot files are the same exactly if they have the same files, in any order and
/// however often a file was given.
pub proof fn law_same_snapshot_files(
    a: Vec<Id>,
    x: SnapshotSet,
    b: Vec<Id>,
    y: SnapshotSet,
    r: bool,
)
    requires
        call_ensures(snapshot_set, (&a,), x),
        call_ensures(snapshot_set, (&b,), y),
        call_ensures(same_snapshots, (&x, &y), r),
    ensures
        r <==> (forall|id: Id| #[trigger] a@.contains(id) <==> b@.contains(id)),
{
    if r {
        assert forall|id: Id| #[trigger] a@.contains(id) <==> b@.contains(id) by {
            assert(a@.to_set().contains(id) <==> b@.to_set().contains(id));
        }
    }
    if forall|id: Id| #[trigger] a@.contains(id) <==> b@.contains(id) {
        assert(a@.to_set() =~= b@.to_set());
    }
}

} // verus!
