//! What the cases of a property test covered.

use vstd::prelude::*;

use crate::error::{BackendCall, BackendOp};
use crate::fault::Fault;
use crate::plan::FAULTS;
use crate::text::{self, owned, push_decimal};

verus! {

/// The backend operations, in the order of the counts of injected faults.
pub const OPS: [BackendOp; 5] = [
    BackendOp::List,
    BackendOp::ReadFull,
    BackendOp::ReadPartial,
    BackendOp::Write,
    BackendOp::Remove,
];

/// The name of the outcome of a restore that had a fault plan or a destination fault, succeeded,
/// and gave the saved tree.
pub const RESTORE_WITH_FAULTS_OK: &'static str = "ok with faults";

/// The index of `op` in [`OPS`].
pub open spec fn op_index(op: BackendOp) -> int {
    match op {
        BackendOp::List => 0,
        BackendOp::ReadFull => 1,
        BackendOp::ReadPartial => 2,
        BackendOp::Write => 3,
        BackendOp::Remove => 4,
    }
}

/// The index of `fault` in [`FAULTS`].
pub open spec fn fault_index(fault: Fault) -> int {
    match fault {
        Fault::Error => 0,
        Fault::Corrupt => 1,
        Fault::Truncate => 2,
    }
}

/// Gives the index of `op` in [`OPS`].
fn position_of_op(op: BackendOp) -> (r: usize)
    ensures
        r == op_index(op),
        r < OPS@.len(),
        OPS@[r as int] == op,
{
    match op {
        BackendOp::List => 0,
        BackendOp::ReadFull => 1,
        BackendOp::ReadPartial => 2,
        BackendOp::Write => 3,
        BackendOp::Remove => 4,
    }
}

/// Gives the index of `fault` in [`FAULTS`].
fn position_of_fault(fault: Fault) -> (r: usize)
    ensures
        r == fault_index(fault),
        r < FAULTS@.len(),
        FAULTS@[r as int] == fault,
{
    match fault {
        Fault::Error => 0,
        Fault::Corrupt => 1,
        Fault::Truncate => 2,
    }
}

/// The count after `count`. It starts again at 0 after its maximum.
pub open spec fn next_count(count: usize) -> usize {
    if count == usize::MAX {
        0
    } else {
        (count + 1) as usize
    }
}

/// Gives the count after `count`.
fn counted(count: usize) -> (r: usize)
    ensures
        r == next_count(count),
{
    if count == usize::MAX {
        0
    } else {
        count + 1
    }
}

/// The numbers of injected faults, for each operation of [`OPS`] and each fault of [`FAULTS`].
#[derive(Debug)]
pub struct Injected {
    /// The number of injected faults for each operation of [`OPS`].
    pub ops: [usize; 5],
    /// The number of injected faults for each fault of [`FAULTS`].
    pub faults: [usize; 3],
}

impl Injected {
    /// Creates the value without injected faults.
    pub fn new() -> (r: Self)
        ensures
            r.ops@ == seq![0usize, 0, 0, 0, 0],
            r.faults@ == seq![0usize, 0, 0],
    {
        let r = Injected { ops: [0, 0, 0, 0, 0], faults: [0, 0, 0] };
        assert(r.ops@ =~= seq![0usize, 0, 0, 0, 0]);
        assert(r.faults@ =~= seq![0usize, 0, 0]);
        r
    }

    /// Counts one injected `fault` in the call `call`.
    pub fn count(&mut self, call: &BackendCall, fault: Fault)
        ensures
            final(self).ops@ == old(self).ops@.update(
                op_index(call.op),
                next_count(old(self).ops@[op_index(call.op)]),
            ),
            final(self).faults@ == old(self).faults@.update(
                fault_index(fault),
                next_count(old(self).faults@[fault_index(fault)]),
            ),
    {
        let op: usize = position_of_op(call.op);
        let kind: usize = position_of_fault(fault);
        self.ops[op] = counted(self.ops[op]);
        self.faults[kind] = counted(self.faults[kind]);
    }

    /// Gives the counts for each operation and each fault.
    pub fn load(&self) -> (r: ([usize; 5], [usize; 3]))
        ensures
            r == (self.ops, self.faults),
    {
        (self.ops, self.faults)
    }
}

/// A kind of step.
#[derive(Debug, Clone, Copy, PartialEq, Eq, Structural)]
pub enum StepName {
    /// A backup.
    Backup,
    /// A snapshot delete.
    Delete,
    /// The creation of the repository.
    Init,
    /// A prune.
    Prune,
    /// A restore.
    Restore,
}

/// An outcome of a step.
#[derive(Debug, Clone, Copy, PartialEq, Eq, Structural)]
pub enum StepOutcome {
    /// The step failed.
    Failed,
    /// The step succeeded.
    Succeeded,
    /// The restore had faults, succeeded, and gave the saved tree.
    SucceededWithFaults,
    /// The case did not run the step.
    Skipped,
}

/// The kinds of steps, in the order of their names.
pub const STEP_NAMES: [StepName; 5] = [
    StepName::Backup,
    StepName::Delete,
    StepName::Init,
    StepName::Prune,
    StepName::Restore,
];

/// The outcomes, in the order of their names.
pub const STEP_OUTCOMES: [StepOutcome; 4] = [
    StepOutcome::Failed,
    StepOutcome::Succeeded,
    StepOutcome::SucceededWithFaults,
    StepOutcome::Skipped,
];

impl StepName {
    /// The index in [`STEP_NAMES`].
    pub open spec fn index(self) -> int {
        match self {
            StepName::Backup => 0,
            StepName::Delete => 1,
            StepName::Init => 2,
            StepName::Prune => 3,
            StepName::Restore => 4,
        }
    }

    /// The name.
    pub open spec fn name_text(self) -> Seq<char> {
        match self {
            StepName::Backup => "backup"@,
            StepName::Delete => "delete"@,
            StepName::Init => "init"@,
            StepName::Prune => "prune"@,
            StepName::Restore => "restore"@,
        }
    }

    /// Gives the name.
    pub fn name(self) -> (r: &'static str)
        ensures
            r@ == self.name_text(),
    {
        match self {
            StepName::Backup => "backup",
            StepName::Delete => "delete",
            StepName::Init => "init",
            StepName::Prune => "prune",
            StepName::Restore => "restore",
        }
    }
}

impl StepOutcome {
    /// The index in [`STEP_OUTCOMES`].
    pub open spec fn index(self) -> int {
        match self {
            StepOutcome::Failed => 0,
            StepOutcome::Succeeded => 1,
            StepOutcome::SucceededWithFaults => 2,
            StepOutcome::Skipped => 3,
        }
    }

    /// The name.
    pub open spec fn name_text(self) -> Seq<char> {
        match self {
            StepOutcome::Failed => "error"@,
            StepOutcome::Succeeded => "ok"@,
            StepOutcome::SucceededWithFaults => RESTORE_WITH_FAULTS_OK@,
            StepOutcome::Skipped => "skipped"@,
        }
    }

    /// Gives the name.
    pub fn name(self) -> (r: &'static str)
        ensures
            r@ == self.name_text(),
    {
        match self {
            StepOutcome::Failed => "error",
            StepOutcome::Succeeded => "ok",
            StepOutcome::SucceededWithFaults => RESTORE_WITH_FAULTS_OK,
            StepOutcome::Skipped => "skipped",
        }
    }
}

/// The position of the count for `step` and `outcome`.
pub open spec fn slot(step: StepName, outcome: StepOutcome) -> int {
    4 * step.index() + outcome.index()
}

/// Gives the position of the count for `step` and `outcome`.
fn slot_of(step: StepName, outcome: StepOutcome) -> (r: usize)
    ensures
        r == slot(step, outcome),
        r < 20,
{
    let row: usize = match step {
        StepName::Backup => 0,
        StepName::Delete => 4,
        StepName::Init => 8,
        StepName::Prune => 12,
        StepName::Restore => 16,
    };
    let column: usize = match outcome {
        StepOutcome::Failed => 0,
        StepOutcome::Succeeded => 1,
        StepOutcome::SucceededWithFaults => 2,
        StepOutcome::Skipped => 3,
    };
    row + column
}

/// The number of results of each kind of step.
#[derive(Debug)]
pub struct Stats {
    results: [usize; 20],
}

/// The text of the first `n` counts. It leaves out results that did not occur.
pub open spec fn stats_text(counts: Seq<usize>, n: nat) -> Seq<char>
    decreases n,
{
    if n == 0 {
        Seq::empty()
    } else {
        let i = n - 1;
        let before = stats_text(counts, i as nat);
        if counts[i] == 0 {
            before
        } else {
            before + STEP_NAMES@[i / 4].name_text() + " "@ + STEP_OUTCOMES@[i % 4].name_text()
                + ": "@ + text::decimal(counts[i] as nat) + "; "@
        }
    }
}

impl Stats {
    /// The counts, by the positions that [`slot`] gives.
    pub closed spec fn counts(&self) -> Seq<usize> {
        self.results@
    }

    /// The number of results of the step `step` with the outcome `outcome`.
    pub open spec fn count_of(&self, step: StepName, outcome: StepOutcome) -> usize {
        self.counts()[slot(step, outcome)]
    }

    /// Whether no count is at its maximum.
    pub open spec fn can_count(&self) -> bool {
        forall|step: StepName, outcome: StepOutcome| #[trigger]
            self.count_of(step, outcome) < usize::MAX
    }

    /// Tells if no count is at its maximum.
    pub fn has_room(&self) -> (r: bool)
        ensures
            r == self.can_count(),
    {
        for i in 0..20usize
            invariant
                forall|j: int| 0 <= j < i ==> #[trigger] self.results@[j] < usize::MAX,
        {
            if self.results[i] == usize::MAX {
                let step = STEP_NAMES[i / 4];
                let outcome = STEP_OUTCOMES[i % 4];
                assert(slot(step, outcome) == i);
                assert(self.count_of(step, outcome) == usize::MAX);
                return false;
            }
        }
        assert forall|step: StepName, outcome: StepOutcome| #[trigger]
            self.count_of(step, outcome) < usize::MAX by {
            let at = slot(step, outcome);
            assert(0 <= at < 20);
            assert(self.results@[at] < usize::MAX);
        }
        true
    }

    /// Creates the value without results.
    pub fn new() -> (r: Self)
        ensures
            r.counts() == Seq::new(20, |i: int| 0usize),
    {
        let r = Stats { results: [0usize; 20] };
        assert(r.counts() =~= Seq::new(20, |i: int| 0usize));
        r
    }

    /// Counts one result of the step `step`.
    pub fn count(&mut self, step: StepName, ok: bool)
        requires
            old(self).count_of(
                step,
                if ok {
                    StepOutcome::Succeeded
                } else {
                    StepOutcome::Failed
                },
            ) < usize::MAX,
        ensures
            old(self).counts().len() == 20,
            ({
                let at = slot(
                    step,
                    if ok {
                        StepOutcome::Succeeded
                    } else {
                        StepOutcome::Failed
                    },
                );
                final(self).counts() == old(self).counts().update(
                    at,
                    (old(self).counts()[at] + 1) as usize,
                )
            }),
    {
        self.add(
            step,
            if ok {
                StepOutcome::Succeeded
            } else {
                StepOutcome::Failed
            },
        );
    }

    /// Counts one outcome `outcome` of the step `step`.
    pub fn add(&mut self, step: StepName, outcome: StepOutcome)
        requires
            old(self).count_of(step, outcome) < usize::MAX,
        ensures
            old(self).counts().len() == 20,
            final(self).counts() == old(self).counts().update(
                slot(step, outcome),
                (old(self).count_of(step, outcome) + 1) as usize,
            ),
    {
        let at: usize = slot_of(step, outcome);
        self.results[at] = self.results[at] + 1;
    }

    /// Gives the number of results of the step `step` with the outcome `outcome`.
    pub fn get(&self, step: StepName, outcome: StepOutcome) -> (r: usize)
        ensures
            r == self.count_of(step, outcome),
    {
        self.results[slot_of(step, outcome)]
    }

    /// Describes the counts.
    pub fn describe(&self) -> (r: String)
        ensures
            r@ == stats_text(self.counts(), 20),
    {
        let mut out = String::new();
        assert(out@ =~= stats_text(self.counts(), 0));
        for i in 0..20usize
            invariant
                out@ == stats_text(self.counts(), i as nat),
        {
            let count: usize = self.results[i];
            let ghost before = out@;
            if count > 0 {
                out.append(STEP_NAMES[i / 4].name());
                out.append(" ");
                out.append(STEP_OUTCOMES[i % 4].name());
                out.append(": ");
                push_decimal(&mut out, count as u64);
                out.append("; ");
            }
            assert(out@ =~= stats_text(self.counts(), (i + 1) as nat));
        }
        out
    }
}

/// The sums of the counts `a` and `b`.
pub open spec fn sums(a: Seq<usize>, b: Seq<usize>) -> Seq<usize> {
    Seq::new(a.len(), |i: int| (a[i] + b[i]) as usize)
}

/// Whether the sums of the counts `a` and `b` fit.
pub open spec fn sums_fit(a: Seq<usize>, b: Seq<usize>) -> bool {
    forall|i: int| 0 <= i < a.len() ==> (#[trigger] a[i]) + b[i] <= usize::MAX
}

/// Adds the counts `more` to the counts `counts`.
fn add_counts<const N: usize>(counts: &mut [usize; N], more: &[usize; N])
    requires
        sums_fit(old(counts)@, more@),
    ensures
        final(counts)@ == sums(old(counts)@, more@),
{
    for i in 0..N
        invariant
            sums_fit(old(counts)@, more@),
            counts@.len() == N,
            old(counts)@.len() == N,
            more@.len() == N,
            forall|j: int| 0 <= j < i ==> #[trigger] counts@[j] == old(counts)@[j] + more@[j],
            forall|j: int| i <= j < N ==> #[trigger] counts@[j] == old(counts)@[j],
    {
        assert(old(counts)@[i as int] + more@[i as int] <= usize::MAX);
        counts[i] = counts[i] + more[i];
    }
    assert(counts@ =~= sums(old(counts)@, more@));
}

/// Tells if the sums of the counts `a` and `b` fit.
fn counts_fit<const N: usize>(a: &[usize; N], b: &[usize; N]) -> (r: bool)
    ensures
        r == sums_fit(a@, b@),
{
    for i in 0..N
        invariant
            a@.len() == N,
            b@.len() == N,
            forall|j: int| 0 <= j < i ==> (#[trigger] a@[j]) + b@[j] <= usize::MAX,
    {
        if a[i] > usize::MAX - b[i] {
            assert(a@[i as int] + b@[i as int] > usize::MAX);
            return false;
        }
    }
    true
}

/// What a run of cases covered: the counts of the results, and the numbers of injected faults.
#[derive(Debug)]
pub struct Coverage {
    /// The counts of the results of all cases.
    pub stats: Stats,
    /// The number of injected faults for each operation of [`OPS`].
    pub ops: [usize; 5],
    /// The number of injected faults for each fault of [`FAULTS`].
    pub faults: [usize; 3],
}

/// The text of the counts of the first `n` operations.
pub open spec fn ops_text(counts: Seq<usize>, n: nat) -> Seq<char>
    decreases n,
{
    if n == 0 {
        Seq::empty()
    } else {
        ops_text(counts, (n - 1) as nat) + " "@ + OPS@[n - 1].name_text() + " "@ + text::decimal(
            counts[n - 1] as nat,
        )
    }
}

/// The text of the counts of the first `n` faults.
pub open spec fn faults_text(counts: Seq<usize>, n: nat) -> Seq<char>
    decreases n,
{
    if n == 0 {
        Seq::empty()
    } else {
        faults_text(counts, (n - 1) as nat) + " "@ + FAULTS@[n - 1].name_text() + " "@
            + text::decimal(counts[n - 1] as nat)
    }
}

/// The names of the operations among the first `n` operations that have no fault.
pub open spec fn missing_ops(counts: Seq<usize>, n: nat) -> Seq<Seq<char>>
    decreases n,
{
    if n == 0 {
        Seq::empty()
    } else if counts[n - 1] == 0 {
        missing_ops(counts, (n - 1) as nat).push(OPS@[n - 1].name_text())
    } else {
        missing_ops(counts, (n - 1) as nat)
    }
}

/// The names of the faults among the first `n` faults that were never injected.
pub open spec fn missing_faults(counts: Seq<usize>, n: nat) -> Seq<Seq<char>>
    decreases n,
{
    if n == 0 {
        Seq::empty()
    } else if counts[n - 1] == 0 {
        missing_faults(counts, (n - 1) as nat).push(FAULTS@[n - 1].name_text())
    } else {
        missing_faults(counts, (n - 1) as nat)
    }
}

impl Coverage {
    /// Creates the value that covers nothing.
    pub fn new() -> (r: Self)
        ensures
            r.stats.counts() == Seq::new(20, |i: int| 0usize),
            r.ops@ == Seq::new(5, |i: int| 0usize),
            r.faults@ == Seq::new(3, |i: int| 0usize),
    {
        let r = Coverage { stats: Stats::new(), ops: [0usize; 5], faults: [0usize; 3] };
        assert(r.ops@ =~= Seq::new(5, |i: int| 0usize));
        assert(r.faults@ =~= Seq::new(3, |i: int| 0usize));
        r
    }

    /// Tells if the counts of a case fit into the counts of the run.
    pub fn fits(&self, stats: &Stats, injected: &Injected) -> (r: bool)
        ensures
            r == (sums_fit(self.stats.counts(), stats.counts()) && sums_fit(
                self.ops@,
                injected.ops@,
            ) && sums_fit(self.faults@, injected.faults@)),
    {
        counts_fit(&self.stats.results, &stats.results) && counts_fit(&self.ops, &injected.ops)
            && counts_fit(&self.faults, &injected.faults)
    }

    /// Adds the counts of a case to the counts of the run.
    ///
    /// # Arguments
    ///
    /// * `stats` - The counts of the results of the case
    /// * `injected` - The numbers of injected faults of the case
    pub fn add(self, stats: &Stats, injected: &Injected) -> (r: Self)
        requires
            sums_fit(self.stats.counts(), stats.counts()),
            sums_fit(self.ops@, injected.ops@),
            sums_fit(self.faults@, injected.faults@),
        ensures
            r.stats.counts() == sums(self.stats.counts(), stats.counts()),
            r.ops@ == sums(self.ops@, injected.ops@),
            r.faults@ == sums(self.faults@, injected.faults@),
    {
        let mut results = self.stats.results;
        let (mut ops, mut faults) = (self.ops, self.faults);
        let (more_ops, more_faults) = injected.load();
        add_counts(&mut results, &stats.results);
        add_counts(&mut ops, &more_ops);
        add_counts(&mut faults, &more_faults);
        Coverage { stats: Stats { results }, ops, faults }
    }

    /// The description of the counts.
    pub open spec fn description(&self) -> Seq<char> {
        stats_text(self.stats.counts(), 20) + "injected faults by operation:"@ + ops_text(
            self.ops@,
            5,
        ) + "; injected faults by kind:"@ + faults_text(self.faults@, 3)
    }

    /// Describes the counts.
    pub fn describe(&self) -> (r: String)
        ensures
            r@ == self.description(),
    {
        let mut out = self.stats.describe();
        out.append("injected faults by operation:");
        let ghost start = out@;
        for i in 0..5usize
            invariant
                out@ == start + ops_text(self.ops@, i as nat),
        {
            out.append(" ");
            out.append(OPS[i].name());
            out.append(" ");
            push_decimal(&mut out, self.ops[i] as u64);
            assert(out@ =~= start + ops_text(self.ops@, (i + 1) as nat));
        }
        out.append("; injected faults by kind:");
        let ghost middle = out@;
        for i in 0..3usize
            invariant
                out@ == middle + faults_text(self.faults@, i as nat),
        {
            out.append(" ");
            out.append(FAULTS[i].name());
            out.append(" ");
            push_decimal(&mut out, self.faults[i] as u64);
            assert(out@ =~= middle + faults_text(self.faults@, (i + 1) as nat));
        }
        assert(out@ =~= self.description());
        out
    }

    /// Whether the run injected each operation and each fault, and checked a restore with faults.
    pub open spec fn is_complete(&self) -> bool {
        &&& forall|i: int| 0 <= i < self.ops@.len() ==> #[trigger] self.ops@[i] > 0
        &&& forall|i: int| 0 <= i < self.faults@.len() ==> #[trigger] self.faults@[i] > 0
        &&& self.stats.count_of(StepName::Restore, StepOutcome::SucceededWithFaults) > 0
    }

    /// The message for a run that does not cover all faults.
    pub open spec fn missing_text(&self) -> Seq<char> {
        "The run does not cover all faults. Operations without a fault: "@ + text::list_text(
            missing_ops(self.ops@, 5),
        ) + ". Faults never injected: "@ + text::list_text(missing_faults(self.faults@, 3))
            + ". Checked restores with faults: "@ + text::decimal(
            self.stats.count_of(StepName::Restore, StepOutcome::SucceededWithFaults) as nat,
        ) + "."@
    }

    /// Checks that the run injected each operation and each fault, and checked a restore with
    /// faults.
    ///
    /// # Errors
    ///
    /// * If the run injected no fault into an operation of [`OPS`], or never injected a fault of
    ///   [`FAULTS`].
    /// * If no restore that had a fault plan or a destination fault succeeded and gave the saved
    ///   tree.
    pub fn check(&self) -> (r: Result<(), String>)
        ensures
            match r {
                Ok(_) => self.is_complete(),
                Err(message) => !self.is_complete() && message@ == self.missing_text(),
            },
    {
        let mut ops: Vec<String> = Vec::new();
        assert(text::texts(ops@) =~= missing_ops(self.ops@, 0));
        for i in 0..5usize
            invariant
                text::texts(ops@) == missing_ops(self.ops@, i as nat),
                ops.len() == 0 <==> forall|j: int| 0 <= j < i ==> #[trigger] self.ops@[j] > 0,
        {
            if self.ops[i] == 0 {
                let ghost before = text::texts(ops@);
                let name = owned(OPS[i].name());
                ops.push(name);
                assert(text::texts(ops@) =~= before.push(name@));
                assert(self.ops@[i as int] == 0);
            }
        }
        let mut faults: Vec<String> = Vec::new();
        assert(text::texts(faults@) =~= missing_faults(self.faults@, 0));
        for i in 0..3usize
            invariant
                text::texts(faults@) == missing_faults(self.faults@, i as nat),
                faults.len() == 0 <==> forall|j: int| 0 <= j < i ==> #[trigger] self.faults@[j] > 0,
        {
            if self.faults[i] == 0 {
                let ghost before = text::texts(faults@);
                let name = owned(FAULTS[i].name());
                faults.push(name);
                assert(text::texts(faults@) =~= before.push(name@));
                assert(self.faults@[i as int] == 0);
            }
        }
        let restores: usize = self.stats.get(StepName::Restore, StepOutcome::SucceededWithFaults);
        if ops.len() > 0 || faults.len() > 0 || restores == 0 {
            let mut out = owned("The run does not cover all faults. Operations without a fault: ");
            out.append(text::list(&ops).as_str());
            out.append(". Faults never injected: ");
            out.append(text::list(&faults).as_str());
            out.append(". Checked restores with faults: ");
            push_decimal(&mut out, restores as u64);
            out.append(".");
            assert(out@ =~= self.missing_text());
            Err(out)
        } else {
            Ok(())
        }
    }
}

/// More cases cover what the run covered before.
pub proof fn law_coverage_grows(
    before: Coverage,
    stats: Stats,
    injected: Injected,
    after: Coverage,
)
    requires
        before.is_complete(),
        sums_fit(before.stats.counts(), stats.counts()),
        sums_fit(before.ops@, injected.ops@),
        sums_fit(before.faults@, injected.faults@),
        before.stats.counts().len() == 20,
        after.stats.counts() == sums(before.stats.counts(), stats.counts()),
        after.ops@ == sums(before.ops@, injected.ops@),
        after.faults@ == sums(before.faults@, injected.faults@),
    ensures
        after.is_complete(),
{
    let at = slot(StepName::Restore, StepOutcome::SucceededWithFaults);
    assert(before.stats.counts()[at] + stats.counts()[at] <= usize::MAX);
    assert forall|i: int| 0 <= i < after.ops@.len() implies #[trigger] after.ops@[i] > 0 by {
        assert(before.ops@[i] + injected.ops@[i] <= usize::MAX);
    }
    assert forall|i: int| 0 <= i < after.faults@.len() implies #[trigger] after.faults@[i] > 0 by {
        assert(before.faults@[i] + injected.faults@[i] <= usize::MAX);
    }
}

/// A counted result adds one to the count of its step and its outcome, and to no other count.
pub proof fn law_each_result_has_its_own_count(
    stats: &mut Stats,
    step: StepName,
    outcome: StepOutcome,
    other_step: StepName,
    other_outcome: StepOutcome,
)
    requires
        call_ensures(Stats::add, (stats, step, outcome), ()),
        old(stats).count_of(step, outcome) < usize::MAX,
    ensures
        final(stats).count_of(step, outcome) == old(stats).count_of(step, outcome) + 1,
        other_step != step || other_outcome != outcome ==> final(stats).count_of(
            other_step,
            other_outcome,
        ) == old(stats).count_of(other_step, other_outcome),
{
}

/// A result of a step counts as a success or as a failure of the step, and as nothing else.
pub proof fn law_results_are_successes_or_failures(
    stats: &mut Stats,
    step: StepName,
    ok: bool,
    other: StepOutcome,
)
    requires
        call_ensures(Stats::count, (stats, step, ok), ()),
        old(stats).count_of(step, StepOutcome::Succeeded) < usize::MAX,
        old(stats).count_of(step, StepOutcome::Failed) < usize::MAX,
    ensures
        ok ==> final(stats).count_of(step, StepOutcome::Succeeded) == old(stats).count_of(
            step,
            StepOutcome::Succeeded,
        ) + 1,
        !ok ==> final(stats).count_of(step, StepOutcome::Failed) == old(stats).count_of(
            step,
            StepOutcome::Failed,
        ) + 1,
        ok && other != StepOutcome::Succeeded || !ok && other != StepOutcome::Failed ==> {
            final(stats).count_of(step, other) == old(stats).count_of(step, other)
        },
{
}

/// An injected fault adds one to the count of the operation of the call, and one to the count of the
/// fault, and changes no other count.
pub proof fn law_injected_fault_counts_once(
    injected: &mut Injected,
    call: BackendCall,
    fault: Fault,
    i: int,
    j: int,
)
    requires
        call_ensures(Injected::count, (injected, &call, fault), ()),
        0 <= i < OPS@.len(),
        0 <= j < FAULTS@.len(),
        old(injected).ops@[i] < usize::MAX,
        old(injected).faults@[j] < usize::MAX,
    ensures
        final(injected).ops@[i] == old(injected).ops@[i] + if OPS@[i] == call.op {
            1int
        } else {
            0
        },
        final(injected).faults@[j] == old(injected).faults@[j] + if FAULTS@[j] == fault {
            1int
        } else {
            0
        },
{
    assert(OPS@[i] == call.op <==> i == op_index(call.op));
    assert(FAULTS@[j] == fault <==> j == fault_index(fault));
}

/// The counts of a run with one more case are the sums of the counts of the run and of the case.
pub proof fn law_case_adds_its_counts(
    before: Coverage,
    stats: Stats,
    injected: Injected,
    after: Coverage,
    fits: bool,
    step: StepName,
    outcome: StepOutcome,
    i: int,
    j: int,
)
    requires
        call_ensures(Coverage::fits, (&before, &stats, &injected), fits),
        fits ==> call_ensures(Coverage::add, (before, &stats, &injected), after),
        before.stats.counts().len() == 20,
        stats.counts().len() == 20,
        0 <= i < OPS@.len(),
        0 <= j < FAULTS@.len(),
    ensures
        before.stats.count_of(step, outcome) + stats.count_of(step, outcome) > usize::MAX ==> !fits,
        before.ops@[i] + injected.ops@[i] > usize::MAX ==> !fits,
        before.faults@[j] + injected.faults@[j] > usize::MAX ==> !fits,
        fits ==> {
            &&& after.stats.count_of(step, outcome) == before.stats.count_of(step, outcome)
                + stats.count_of(step, outcome)
            &&& after.ops@[i] == before.ops@[i] + injected.ops@[i]
            &&& after.faults@[j] == before.faults@[j] + injected.faults@[j]
        },
{
    let at = slot(step, outcome);
    assert(0 <= at < 20);
    if fits {
        assert(before.stats.counts()[at] + stats.counts()[at] <= usize::MAX);
        assert(before.ops@[i] + injected.ops@[i] <= usize::MAX);
        assert(before.faults@[j] + injected.faults@[j] <= usize::MAX);
    }
}

/// A run passes the check exactly if it injected a fault into each operation and each fault at least
/// once, and checked at least one restore with faults.
pub proof fn law_check_wants_each_fault(coverage: Coverage, restores: usize, r: Result<(), String>)
    requires
        call_ensures(Coverage::check, (&coverage,), r),
        call_ensures(
            Stats::get,
            (&coverage.stats, StepName::Restore, StepOutcome::SucceededWithFaults),
            restores,
        ),
    ensures
        r is Ok <==> restores >= 1 && (forall|i: int|
            0 <= i < OPS@.len() ==> #[trigger] coverage.ops@[i] >= 1) && (forall|j: int|
            0 <= j < FAULTS@.len() ==> #[trigger] coverage.faults@[j] >= 1),
{
}

/// A run that covers nothing has no counts.
pub proof fn law_new_run_has_no_counts(
    coverage: Coverage,
    injected: Injected,
    step: StepName,
    outcome: StepOutcome,
    i: int,
    j: int,
)
    requires
        call_ensures(Coverage::new, (), coverage),
        call_ensures(Injected::new, (), injected),
        0 <= i < OPS@.len(),
        0 <= j < FAULTS@.len(),
    ensures
        coverage.stats.count_of(step, outcome) == 0,
        coverage.ops@[i] == 0,
        coverage.faults@[j] == 0,
        injected.ops@[i] == 0,
        injected.faults@[j] == 0,
{
}

/// The check names exactly the operations without a fault.
pub proof fn law_missing_operations_have_no_fault(counts: Seq<usize>, n: nat, i: int, k: int)
    requires
        n <= OPS@.len(),
        counts.len() == OPS@.len(),
    ensures
        0 <= i < n && counts[i] == 0 ==> missing_ops(counts, n).contains(OPS@[i].name_text()),
        0 <= k < missing_ops(counts, n).len() ==> exists|j: int|
            0 <= j < n && #[trigger] counts[j] == 0 && missing_ops(counts, n)[k]
                == OPS@[j].name_text(),
    decreases n,
{
    if n > 0 {
        let before = missing_ops(counts, (n - 1) as nat);
        let all = missing_ops(counts, n);
        law_missing_operations_have_no_fault(counts, (n - 1) as nat, i, k);
        if 0 <= i < n - 1 && counts[i] == 0 {
            let name = OPS@[i].name_text();
            let at = choose|at: int| 0 <= at < before.len() && before[at] == name;
            assert(all[at] == name);
        }
        if i == n - 1 && counts[i] == 0 {
            assert(all[all.len() - 1] == OPS@[i].name_text());
        }
        if 0 <= k < all.len() && k >= before.len() {
            assert(counts[n - 1] == 0);
        }
    }
}

/// The check names exactly the faults that were never injected.
pub proof fn law_missing_faults_were_never_injected(counts: Seq<usize>, n: nat, i: int, k: int)
    requires
        n <= FAULTS@.len(),
        counts.len() == FAULTS@.len(),
    ensures
        0 <= i < n && counts[i] == 0 ==> missing_faults(counts, n).contains(FAULTS@[i].name_text()),
        0 <= k < missing_faults(counts, n).len() ==> exists|j: int|
            0 <= j < n && #[trigger] counts[j] == 0 && missing_faults(counts, n)[k]
                == FAULTS@[j].name_text(),
    decreases n,
{
    if n > 0 {
        let before = missing_faults(counts, (n - 1) as nat);
        let all = missing_faults(counts, n);
        law_missing_faults_were_never_injected(counts, (n - 1) as nat, i, k);
        if 0 <= i < n - 1 && counts[i] == 0 {
            let name = FAULTS@[i].name_text();
            let at = choose|at: int| 0 <= at < before.len() && before[at] == name;
            assert(all[at] == name);
        }
        if i == n - 1 && counts[i] == 0 {
            assert(all[all.len() - 1] == FAULTS@[i].name_text());
        }
        if 0 <= k < all.len() && k >= before.len() {
            assert(counts[n - 1] == 0);
        }
    }
}

/// The count of injected faults starts again at 0 after its maximum.
pub proof fn law_injected_count_starts_again(
    injected: &mut Injected,
    call: BackendCall,
    fault: Fault,
    i: int,
)
    requires
        call_ensures(Injected::count, (injected, &call, fault), ()),
        0 <= i < OPS@.len(),
        OPS@[i] == call.op,
        old(injected).ops@[i] == usize::MAX,
    ensures
        final(injected).ops@[i] == 0,
{
    assert(i == op_index(call.op));
}

/// The description of the results has each step and outcome that occurred, with its number.
pub proof fn law_description_has_each_result(
    stats: Stats,
    r: String,
    step: StepName,
    outcome: StepOutcome,
    names: (&'static str, &'static str),
)
    requires
        call_ensures(Stats::describe, (&stats,), r),
        call_ensures(StepName::name, (step,), names.0),
        call_ensures(StepOutcome::name, (outcome,), names.1),
        stats.count_of(step, outcome) > 0,
    ensures
        text::is_substring(
            r@,
            names.0@ + " "@ + names.1@ + ": "@ + text::decimal(
                stats.count_of(step, outcome) as nat,
            ) + "; "@,
        ),
{
    let at = slot(step, outcome);
    assert(0 <= at < 20);
    assert(at / 4 == step.index() && at % 4 == outcome.index());
    assert(STEP_NAMES@[at / 4] == step);
    assert(STEP_OUTCOMES@[at % 4] == outcome);
    lemma_stats_text(stats.counts(), 20, at);
}

proof fn lemma_stats_text(counts: Seq<usize>, n: nat, at: int)
    requires
        0 <= at < n,
        counts[at] > 0,
    ensures
        text::is_substring(
            stats_text(counts, n),
            STEP_NAMES@[at / 4].name_text() + " "@ + STEP_OUTCOMES@[at % 4].name_text() + ": "@
                + text::decimal(counts[at] as nat) + "; "@,
        ),
    decreases n,
{
    let part = STEP_NAMES@[at / 4].name_text() + " "@ + STEP_OUTCOMES@[at % 4].name_text() + ": "@
        + text::decimal(counts[at] as nat) + "; "@;
    let whole = stats_text(counts, n);
    let before = stats_text(counts, (n - 1) as nat);
    text::lemma_substring(whole, part);
    if at == n - 1 {
        assert(whole =~= (before + part) + Seq::empty());
    } else {
        lemma_stats_text(counts, (n - 1) as nat, at);
        text::lemma_substring(before, part);
        let (x, y) = choose|x: Seq<char>, y: Seq<char>| before == #[trigger] ((x + part) + y);
        let more = whole.skip(before.len() as int);
        assert(whole =~= before + more);
        assert(whole =~= (x + part) + (y + more));
    }
}

/// The description of a run without results, operations and faults names no result.
pub proof fn law_description_leaves_out_the_others(stats: Stats, r: String)
    requires
        call_ensures(Stats::describe, (&stats,), r),
        forall|i: int| 0 <= i < 20 ==> #[trigger] stats.counts()[i] == 0,
    ensures
        r@.len() == 0,
{
    lemma_no_stats(stats.counts(), 20);
}

proof fn lemma_no_stats(counts: Seq<usize>, n: nat)
    requires
        forall|i: int| 0 <= i < n ==> #[trigger] counts[i] == 0,
    ensures
        stats_text(counts, n).len() == 0,
    decreases n,
{
    if n > 0 {
        lemma_no_stats(counts, (n - 1) as nat);
        assert(counts[n - 1] == 0);
    }
}

proof fn lemma_part_stays(before: Seq<char>, more: Seq<char>, part: Seq<char>)
    requires
        text::is_substring(before, part),
    ensures
        text::is_substring(before + more, part),
{
    text::lemma_substring(before, part);
    text::lemma_substring(before + more, part);
    let (x, y) = choose|x: Seq<char>, y: Seq<char>| before == #[trigger] ((x + part) + y);
    assert(before + more =~= (x + part) + (y + more));
}

proof fn lemma_ops_text(counts: Seq<usize>, n: nat, i: int)
    requires
        0 <= i < n,
    ensures
        text::is_substring(
            ops_text(counts, n),
            " "@ + OPS@[i].name_text() + " "@ + text::decimal(counts[i] as nat),
        ),
    decreases n,
{
    let part = " "@ + OPS@[i].name_text() + " "@ + text::decimal(counts[i] as nat);
    let whole = ops_text(counts, n);
    let before = ops_text(counts, (n - 1) as nat);
    if i == n - 1 {
        assert(whole =~= (before + part) + Seq::empty());
        text::lemma_substring(whole, part);
    } else {
        lemma_ops_text(counts, (n - 1) as nat, i);
        let more = whole.skip(before.len() as int);
        assert(whole =~= before + more);
        lemma_part_stays(before, more, part);
    }
}

proof fn lemma_faults_text(counts: Seq<usize>, n: nat, i: int)
    requires
        0 <= i < n,
    ensures
        text::is_substring(
            faults_text(counts, n),
            " "@ + FAULTS@[i].name_text() + " "@ + text::decimal(counts[i] as nat),
        ),
    decreases n,
{
    let part = " "@ + FAULTS@[i].name_text() + " "@ + text::decimal(counts[i] as nat);
    let whole = faults_text(counts, n);
    let before = faults_text(counts, (n - 1) as nat);
    if i == n - 1 {
        assert(whole =~= (before + part) + Seq::empty());
        text::lemma_substring(whole, part);
    } else {
        lemma_faults_text(counts, (n - 1) as nat, i);
        let more = whole.skip(before.len() as int);
        assert(whole =~= before + more);
        lemma_part_stays(before, more, part);
    }
}

/// The description of a run has the number of faults of each operation and of each kind, after their
/// names.
pub proof fn law_description_has_each_number(coverage: Coverage, r: String, i: int, j: int)
    requires
        call_ensures(Coverage::describe, (&coverage,), r),
        0 <= i < OPS@.len(),
        0 <= j < FAULTS@.len(),
    ensures
        text::is_substring(
            r@,
            " "@ + OPS@[i].name_text() + " "@ + text::decimal(coverage.ops@[i] as nat),
        ),
        text::is_substring(
            r@,
            " "@ + FAULTS@[j].name_text() + " "@ + text::decimal(coverage.faults@[j] as nat),
        ),
{
    let op = " "@ + OPS@[i].name_text() + " "@ + text::decimal(coverage.ops@[i] as nat);
    let fault = " "@ + FAULTS@[j].name_text() + " "@ + text::decimal(coverage.faults@[j] as nat);
    let start = stats_text(coverage.stats.counts(), 20) + "injected faults by operation:"@;
    let ops = ops_text(coverage.ops@, 5);
    let faults = faults_text(coverage.faults@, 3);
    let middle = "; injected faults by kind:"@;
    lemma_ops_text(coverage.ops@, 5, i);
    lemma_faults_text(coverage.faults@, 3, j);
    text::lemma_substring(ops, op);
    text::lemma_substring(faults, fault);
    text::lemma_substring(r@, op);
    text::lemma_substring(r@, fault);
    let (x, y) = choose|x: Seq<char>, y: Seq<char>| ops == #[trigger] ((x + op) + y);
    assert(r@ =~= ((start + x) + op) + (y + middle + faults));
    let (u, v) = choose|u: Seq<char>, v: Seq<char>| faults == #[trigger] ((u + fault) + v);
    assert(r@ =~= ((start + ops + middle + u) + fault) + v);
}

} // verus!
