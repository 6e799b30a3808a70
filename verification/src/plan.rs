//! Random plans of a property test: the steps of a case, and the faults of each step.

use vstd::prelude::*;

use crate::error::{BackendCall, BackendOp};
use crate::fault::Fault;
use crate::file_type::FileType;
use crate::rng::{self, Rng};
use crate::tree_spec::{self, TreeModel, TreeSpec};

verus! {

/// The directories of a restore that a destination fault can make read-only.
pub const READ_ONLY_TARGETS: [&'static str; 4] = ["data", "data/d0", "data/d0/d1", "data/d2"];

/// The backend calls of the creation of a repository with a master key.
pub const INIT_CALLS: [(BackendOp, FileType); 2] = [
    (BackendOp::List, FileType::Config),
    (BackendOp::Write, FileType::Config),
];

/// The backend calls of a backup, with the open of the repository and the load of the index.
pub const BACKUP_CALLS: [(BackendOp, FileType); 10] = [
    (BackendOp::List, FileType::Config),
    (BackendOp::List, FileType::Index),
    (BackendOp::List, FileType::Snapshot),
    (BackendOp::ReadFull, FileType::Config),
    (BackendOp::ReadFull, FileType::Index),
    (BackendOp::ReadFull, FileType::Snapshot),
    (BackendOp::ReadPartial, FileType::Pack),
    (BackendOp::Write, FileType::Pack),
    (BackendOp::Write, FileType::Index),
    (BackendOp::Write, FileType::Snapshot),
];

/// The backend calls of a restore, with the open of the repository and the load of the index.
pub const RESTORE_CALLS: [(BackendOp, FileType); 7] = [
    (BackendOp::List, FileType::Config),
    (BackendOp::List, FileType::Index),
    (BackendOp::ReadFull, FileType::Config),
    (BackendOp::ReadFull, FileType::Index),
    (BackendOp::ReadFull, FileType::Snapshot),
    (BackendOp::ReadFull, FileType::Pack),
    (BackendOp::ReadPartial, FileType::Pack),
];

/// The backend calls of a snapshot delete, with the open of the repository.
pub const DELETE_CALLS: [(BackendOp, FileType); 3] = [
    (BackendOp::List, FileType::Config),
    (BackendOp::ReadFull, FileType::Config),
    (BackendOp::Remove, FileType::Snapshot),
];

/// The backend calls of a prune, with the open of the repository.
pub const PRUNE_CALLS: [(BackendOp, FileType); 13] = [
    (BackendOp::List, FileType::Config),
    (BackendOp::List, FileType::Index),
    (BackendOp::List, FileType::Snapshot),
    (BackendOp::List, FileType::Pack),
    (BackendOp::ReadFull, FileType::Config),
    (BackendOp::ReadFull, FileType::Index),
    (BackendOp::ReadFull, FileType::Snapshot),
    (BackendOp::ReadFull, FileType::Pack),
    (BackendOp::ReadPartial, FileType::Pack),
    (BackendOp::Write, FileType::Pack),
    (BackendOp::Write, FileType::Index),
    (BackendOp::Remove, FileType::Index),
    (BackendOp::Remove, FileType::Pack),
];

/// The faults that the backend can inject.
pub const FAULTS: [Fault; 3] = [Fault::Error, Fault::Corrupt, Fault::Truncate];

/// The numbers of reader threads of a restore. 0 stands for the default.
pub const THREADS: [usize; 4] = [0, 1, 2, 4];

/// The option for the number `threads` of reader threads. The default has no option.
pub open spec fn thread_option(threads: usize) -> Option<usize> {
    if threads == 0 {
        None
    } else {
        Some(threads)
    }
}

/// When a fault hits a call.
#[derive(Debug, Clone, Copy, PartialEq, Eq, Structural)]
pub enum Trigger {
    /// Only the call with this index among the matching calls. The first index is 0.
    Nth(usize),
    /// Each call from this index on among the matching calls.
    From(usize),
}

impl Trigger {
    /// Whether the fault hits the matching call with the index `index`.
    pub open spec fn hits(self, index: int) -> bool {
        match self {
            Trigger::Nth(nth) => index == nth,
            Trigger::From(from) => index >= from,
        }
    }
}

/// A rule that injects a fault into matching backend calls.
#[derive(Debug, Clone, Copy, PartialEq, Eq, Structural)]
pub struct FaultRule {
    /// The operation of the matching calls.
    pub op: BackendOp,
    /// The file type of the matching calls. `None` matches each file type.
    pub tpe: Option<FileType>,
    /// The fault to inject.
    pub fault: Fault,
    /// When the fault hits a matching call.
    pub trigger: Trigger,
}

/// The number of rules of a plan that a generator with the state `s` gives.
pub open spec fn generated_count(s: u64) -> nat {
    let kind = rng::rng_below(s, 4);
    if kind == 0 {
        0
    } else if kind == 3 {
        2
    } else {
        1
    }
}

/// The first `n` rules for the calls `calls` that a generator with the state `s` gives, and the
/// state after them.
pub open spec fn generated_rules(s: u64, calls: Seq<(BackendOp, FileType)>, n: nat) -> (
    Seq<FaultRule>,
    u64,
)
    decreases n,
{
    if n == 0 {
        (Seq::empty(), s)
    } else {
        let (before, state) = generated_rules(s, calls, (n - 1) as nat);
        (before.push(FaultRule::generated(state, calls)), tree_spec::steps(state, 5))
    }
}

/// The plan for the calls `calls` that a generator with the state `s` gives, and the state after
/// it.
pub open spec fn generated_plan(s: u64, calls: Seq<(BackendOp, FileType)>) -> (Seq<FaultRule>, u64) {
    generated_rules(rng::rng_step(s), calls, generated_count(s))
}

/// Whether `rules` are at most two rules, and each matches the operation and the file type of a call
/// of `calls`, or the operation of a call of `calls` with each file type.
pub open spec fn is_plan_for(rules: Seq<FaultRule>, calls: Seq<(BackendOp, FileType)>) -> bool {
    &&& rules.len() <= 2
    &&& forall|i: int| 0 <= i < rules.len() ==> (#[trigger] rules[i]).is_for(calls)
}

impl FaultRule {
    /// The rule for the calls `calls` that a generator with the state `s` gives.
    pub open spec fn generated(s: u64, calls: Seq<(BackendOp, FileType)>) -> FaultRule {
        let call = calls[rng::rng_below(s, calls.len()) as int];
        let index = rng::rng_below(tree_spec::steps(s, 4), 3) as usize;
        FaultRule {
            op: call.0,
            tpe: if rng::rng_below(tree_spec::steps(s, 1), 4) < 3 {
                Some(call.1)
            } else {
                None
            },
            fault: FAULTS@[rng::rng_below(tree_spec::steps(s, 2), FAULTS@.len()) as int],
            trigger: if rng::rng_below(tree_spec::steps(s, 3), 2) < 1 {
                Trigger::Nth(index)
            } else {
                Trigger::From(index)
            },
        }
    }

    /// Whether the rule matches the operation and the file type of a call of `calls`, or the
    /// operation of a call of `calls` with each file type.
    pub open spec fn is_for(self, calls: Seq<(BackendOp, FileType)>) -> bool {
        exists|i: int|
            0 <= i < calls.len() && (#[trigger] calls[i]).0 == self.op && (self.tpe matches Some(
                tpe,
            ) ==> calls[i].1 == tpe)
    }

    /// Whether the rule matches `call`.
    pub open spec fn matches_call(self, call: BackendCall) -> bool {
        self.op == call.op && (self.tpe matches Some(tpe) ==> tpe == call.tpe)
    }

    /// The fault for `call` if `count` matching calls came before.
    pub open spec fn decided(self, call: BackendCall, count: usize) -> Option<Fault> {
        if self.matches_call(call) && self.trigger.hits(count as int) {
            Some(self.fault)
        } else {
            None
        }
    }

    /// The number of matching calls after `call`. It starts again at 0 after its maximum.
    pub open spec fn counted(self, call: BackendCall, count: usize) -> usize {
        if !self.matches_call(call) {
            count
        } else if count == usize::MAX {
            0
        } else {
            (count + 1) as usize
        }
    }

    /// Generates 0 to 2 rules for the backend calls of `calls`.
    ///
    /// A rule matches one of the calls, or the operation of one of the calls with each file type.
    pub fn generate_plan(rng: &mut Rng, calls: &[(BackendOp, FileType)]) -> (r: Vec<Self>)
        requires
            calls@.len() > 0,
        ensures
            (r@, final(rng).state) == generated_plan(old(rng).state, calls@),
            is_plan_for(r@, calls@),
    {
        let count: usize = match rng.below(4) {
            0 => 0,
            3 => 2,
            _ => 1,
        };
        let ghost start = rng.state;
        let mut rules: Vec<FaultRule> = Vec::new();
        for i in 0..count
            invariant
                calls@.len() > 0,
                (rules@, rng.state) == generated_rules(start, calls@, i as nat),
                rules.len() == i,
                forall|j: int| 0 <= j < i ==> (#[trigger] rules@[j]).is_for(calls@),
        {
            let ghost before = rules@;
            let ghost s = rng.state;
            let (op, tpe) = rng.pick(calls);
            let tpe = if rng.chance(3, 4) {
                Some(tpe)
            } else {
                None
            };
            let fault = rng.pick(&FAULTS);
            let trigger = if rng.chance(1, 2) {
                Trigger::Nth(rng.below(3))
            } else {
                Trigger::From(rng.below(3))
            };
            let rule = FaultRule { op, tpe, fault, trigger };
            rules.push(rule);
            proof {
                reveal_with_fuel(tree_spec::steps, 6);
                let call = calls@[rng::rng_below(s, calls@.len()) as int];
                assert(call.0 == op);
                assert(rule.is_for(calls@));
                assert(rules@ =~= before.push(rule));
            }
        }
        rules
    }

    /// Gives the fault for `call`, and counts `call` in `count` if it matches.
    pub fn fault_for(&self, call: &BackendCall, count: &mut usize) -> (r: Option<Fault>)
        ensures
            r == self.decided(*call, *old(count)),
            *final(count) == self.counted(*call, *old(count)),
    {
        let same_type = match self.tpe {
            Some(tpe) => tpe == call.tpe,
            None => true,
        };
        if self.op == call.op && same_type {
            let index: usize = *count;
            *count = if index == usize::MAX {
                0
            } else {
                index + 1
            };
            let hit = match self.trigger {
                Trigger::Nth(nth) => index == nth,
                Trigger::From(from) => index >= from,
            };
            if hit {
                Some(self.fault)
            } else {
                None
            }
        } else {
            None
        }
    }
}

/// Whether the rules before the index `i` decide no fault for `call`.
pub open spec fn none_before(
    rules: Seq<FaultRule>,
    counts: Seq<usize>,
    call: BackendCall,
    i: int,
) -> bool {
    forall|j: int| 0 <= j < i ==> (#[trigger] rules[j]).decided(call, counts[j]) is None
}

/// Whether the first rule that decides a fault for `call` decides `fault`.
pub open spec fn first_decides(
    rules: Seq<FaultRule>,
    counts: Seq<usize>,
    call: BackendCall,
    fault: Option<Fault>,
) -> bool {
    match fault {
        Some(fault) => exists|i: int|
            0 <= i < rules.len() && (#[trigger] rules[i]).decided(call, counts[i]) == Some(fault)
                && none_before(rules, counts, call, i),
        None => none_before(rules, counts, call, rules.len() as int),
    }
}

/// The rules of a step, with the number of calls that each rule matched.
#[derive(Debug)]
pub struct FaultPlan {
    entries: Vec<(FaultRule, usize)>,
}

impl FaultPlan {
    /// The rules.
    pub closed spec fn rules(&self) -> Seq<FaultRule> {
        self.entries@.map_values(|entry: (FaultRule, usize)| entry.0)
    }

    /// The number of calls that each rule matched.
    pub closed spec fn counts(&self) -> Seq<usize> {
        self.entries@.map_values(|entry: (FaultRule, usize)| entry.1)
    }

    /// Creates a plan whose rules matched no call.
    pub fn new(rules: &Vec<FaultRule>) -> (r: Self)
        ensures
            r.rules() == rules@,
            r.counts() == Seq::new(rules@.len(), |i: int| 0usize),
    {
        let mut entries: Vec<(FaultRule, usize)> = Vec::new();
        let n: usize = rules.len();
        for i in 0..n
            invariant
                n == rules.len(),
                entries.len() == i,
                forall|j: int| 0 <= j < i ==> #[trigger] entries@[j] == (rules@[j], 0usize),
        {
            entries.push((rules[i], 0));
        }
        let r = FaultPlan { entries };
        assert(r.rules() =~= rules@);
        assert(r.counts() =~= Seq::new(rules@.len(), |i: int| 0usize));
        r
    }

    /// Gives the fault for `call`: the fault of the first rule that decides one.
    ///
    /// Each rule up to this rule counts `call` if it matches. A later rule does not see `call`.
    pub fn fault_for(&mut self, call: &BackendCall) -> (r: Option<Fault>)
        ensures
            final(self).rules() == old(self).rules(),
            final(self).counts().len() == old(self).counts().len(),
            first_decides(old(self).rules(), old(self).counts(), *call, r),
            forall|i: int|
                0 <= i < old(self).rules().len() ==> #[trigger] final(self).counts()[i]
                    == if none_before(old(self).rules(), old(self).counts(), *call, i) {
                    old(self).rules()[i].counted(*call, old(self).counts()[i])
                } else {
                    old(self).counts()[i]
                },
    {
        let ghost rules = self.rules();
        let ghost counts = self.counts();
        let n: usize = self.entries.len();
        let mut fault: Option<Fault> = None;
        let mut i: usize = 0;
        while i < n && fault.is_none()
            invariant
                i <= n,
                n == rules.len(),
                n == counts.len(),
                n == self.entries.len(),
                fault is None ==> none_before(rules, counts, *call, i as int),
                fault matches Some(f) ==> i > 0 && rules[i - 1].decided(*call, counts[i - 1])
                    == Some(f) && none_before(rules, counts, *call, i - 1),
                forall|j: int| 0 <= j < n ==> (#[trigger] self.entries@[j]).0 == rules[j],
                forall|j: int|
                    0 <= j < i ==> (#[trigger] self.entries@[j]).1 == rules[j].counted(
                        *call,
                        counts[j],
                    ),
                forall|j: int| i <= j < n ==> (#[trigger] self.entries@[j]).1 == counts[j],
            decreases n - i,
        {
            let (rule, before) = self.entries[i];
            let mut count: usize = before;
            fault = rule.fault_for(call, &mut count);
            self.entries.set(i, (rule, count));
            i = i + 1;
        }
        proof {
            assert(self.rules() =~= rules);
            if fault is Some {
                assert(rules[i - 1].decided(*call, counts[i - 1]) == fault);
            }
            assert forall|j: int| 0 <= j < n implies #[trigger] self.counts()[j] == if none_before(
                rules,
                counts,
                *call,
                j,
            ) {
                rules[j].counted(*call, counts[j])
            } else {
                counts[j]
            } by {
                assert(self.entries@[j].1 == self.counts()[j]);
                if j >= i {
                    assert(rules[i - 1].decided(*call, counts[i - 1]) is Some);
                }
            }
        }
        fault
    }
}

/// A fault of a restore destination.
#[derive(Debug, Clone, Copy, PartialEq, Eq, Structural)]
pub enum DestFault {
    /// The destination has no fault.
    Nothing,
    /// The directory with this index in [`READ_ONLY_TARGETS`] becomes read-only after the plan.
    ReadOnlyDir(usize),
    /// The destination is a tmpfs with this size in bytes.
    Volume(u64),
}

/// A step of a case.
#[derive(Debug)]
pub enum Step {
    /// Backs up a new tree.
    Backup {
        /// The tree.
        tree: TreeSpec,
        /// The faults.
        faults: Vec<FaultRule>,
    },
    /// Restores a saved snapshot.
    Restore {
        /// Selects the snapshot among the saved snapshots.
        pick: usize,
        /// The number of reader threads.
        threads: Option<usize>,
        /// The fault of the destination.
        dest: DestFault,
        /// The faults.
        faults: Vec<FaultRule>,
    },
    /// Deletes a saved snapshot.
    Delete {
        /// Selects the snapshot among the saved snapshots.
        pick: usize,
        /// The faults.
        faults: Vec<FaultRule>,
    },
    /// Prunes the repository.
    Prune {
        /// The faults.
        faults: Vec<FaultRule>,
    },
}

/// What a [`Step`] describes.
pub ghost enum StepModel {
    /// A backup of a tree.
    Backup(TreeModel, Seq<FaultRule>),
    /// A restore, with the selection, the threads and the fault of the destination.
    Restore(usize, Option<usize>, DestFault, Seq<FaultRule>),
    /// A delete, with the selection.
    Delete(usize, Seq<FaultRule>),
    /// A prune.
    Prune(Seq<FaultRule>),
}

impl View for Step {
    type V = StepModel;

    open spec fn view(&self) -> StepModel {
        match self {
            Step::Backup { tree, faults } => StepModel::Backup(tree@, faults@),
            Step::Restore { pick, threads, dest, faults } => StepModel::Restore(
                *pick,
                *threads,
                *dest,
                faults@,
            ),
            Step::Delete { pick, faults } => StepModel::Delete(*pick, faults@),
            Step::Prune { faults } => StepModel::Prune(faults@),
        }
    }
}

/// The kinds of faults that a run can inject, apart from backend faults.
#[derive(Debug, Clone, Copy, PartialEq, Eq, Structural)]
pub struct Faults {
    /// Source trees can have an entry that the backup cannot read.
    pub unreadable: bool,
    /// A restore can get a read-only directory in its destination.
    pub read_only: bool,
    /// A restore can get a small tmpfs as its destination.
    pub volume: bool,
}

impl DestFault {
    /// The fault of a destination that a generator with the state `s` gives, and the state after
    /// it.
    pub open spec fn generated(s: u64, faults: Faults) -> (DestFault, u64) {
        let kind = rng::rng_below(s, 4);
        let next = rng::rng_step(s);
        if kind == 0 && faults.read_only {
            (
                DestFault::ReadOnlyDir(rng::rng_below(next, READ_ONLY_TARGETS@.len()) as usize),
                rng::rng_step(next),
            )
        } else if (kind == 1 || kind == 2) && faults.volume {
            (
                DestFault::Volume((4_096 * (1 + rng::rng_below(next, 64))) as u64),
                rng::rng_step(next),
            )
        } else {
            (DestFault::Nothing, next)
        }
    }

    /// Whether `faults` allows the fault.
    pub open spec fn is_allowed(self, faults: Faults) -> bool {
        match self {
            DestFault::Nothing => true,
            DestFault::ReadOnlyDir(index) => faults.read_only && index < READ_ONLY_TARGETS@.len(),
            DestFault::Volume(size) => faults.volume && 4_096 <= size <= 262_144,
        }
    }

    /// Generates the fault of a destination.
    pub fn generate(rng: &mut Rng, faults: Faults) -> (r: Self)
        ensures
            (r, final(rng).state) == Self::generated(old(rng).state, faults),
            r.is_allowed(faults),
    {
        let kind: usize = rng.below(4);
        if kind == 0 && faults.read_only {
            DestFault::ReadOnlyDir(rng.below(READ_ONLY_TARGETS.len()))
        } else if (kind == 1 || kind == 2) && faults.volume {
            DestFault::Volume(4_096 * (1 + rng.below(64) as u64))
        } else {
            DestFault::Nothing
        }
    }
}

impl StepModel {
    /// The step that a generator with the state `s` gives, and the state after it.
    pub open spec fn generated(s: u64, faults: Faults) -> (StepModel, u64) {
        let kind = rng::rng_below(s, 8);
        let s1 = rng::rng_step(s);
        if kind <= 2 {
            let (tree, s2) = TreeModel::generated(s1, faults.unreadable);
            let (rules, s3) = generated_plan(s2, BACKUP_CALLS@);
            (StepModel::Backup(tree, rules), s3)
        } else if kind <= 5 {
            let s2 = rng::rng_step(s1);
            let (dest, s3) = DestFault::generated(rng::rng_step(s2), faults);
            let (rules, s4) = generated_plan(s3, RESTORE_CALLS@);
            (
                StepModel::Restore(
                    rng::rng_below(s1, usize::MAX as nat) as usize,
                    thread_option(THREADS@[rng::rng_below(s2, THREADS@.len()) as int]),
                    dest,
                    rules,
                ),
                s4,
            )
        } else if kind == 6 {
            let (rules, s2) = generated_plan(rng::rng_step(s1), DELETE_CALLS@);
            (StepModel::Delete(rng::rng_below(s1, usize::MAX as nat) as usize, rules), s2)
        } else {
            let (rules, s2) = generated_plan(s1, PRUNE_CALLS@);
            (StepModel::Prune(rules), s2)
        }
    }

    /// Whether `faults` allows the faults of the step, its tree is well-formed, and its rules are
    /// for the calls of the step.
    pub open spec fn is_allowed(self, faults: Faults) -> bool {
        match self {
            StepModel::Backup(tree, rules) => tree.well_formed() && (tree.unreadable is Some
                ==> faults.unreadable) && is_plan_for(rules, BACKUP_CALLS@),
            StepModel::Restore(_, threads, dest, rules) => (threads matches Some(n)
                ==> n > 0 && THREADS@.contains(n)) && dest.is_allowed(faults) && is_plan_for(rules, RESTORE_CALLS@),
            StepModel::Delete(_, rules) => is_plan_for(rules, DELETE_CALLS@),
            StepModel::Prune(rules) => is_plan_for(rules, PRUNE_CALLS@),
        }
    }
}

impl Step {
    /// Generates a step.
    pub fn generate(rng: &mut Rng, faults: Faults) -> (r: Self)
        ensures
            (r@, final(rng).state) == StepModel::generated(old(rng).state, faults),
            r@.is_allowed(faults),
    {
        match rng.below(8) {
            0 | 1 | 2 => {
                let tree = TreeSpec::generate(rng, faults.unreadable);
                Step::Backup { tree, faults: FaultRule::generate_plan(rng, &BACKUP_CALLS) }
            },
            3 | 4 | 5 => {
                let pick: usize = rng.below(usize::MAX);
                let threads: usize = rng.pick(&THREADS);
                let threads = if threads == 0 {
                    None
                } else {
                    Some(threads)
                };
                let dest = DestFault::generate(rng, faults);
                Step::Restore {
                    pick,
                    threads,
                    dest,
                    faults: FaultRule::generate_plan(rng, &RESTORE_CALLS),
                }
            },
            6 => {
                let pick: usize = rng.below(usize::MAX);
                Step::Delete { pick, faults: FaultRule::generate_plan(rng, &DELETE_CALLS) }
            },
            _ => Step::Prune { faults: FaultRule::generate_plan(rng, &PRUNE_CALLS) },
        }
    }
}

/// A case: the faults of the creation of the repository, and the steps.
#[derive(Debug)]
pub struct Case {
    /// The faults of the creation of the repository.
    pub init: Vec<FaultRule>,
    /// The steps. The first step is a backup without faults of a readable tree.
    pub steps: Vec<Step>,
}

/// What a [`Case`] describes.
pub ghost struct CaseModel {
    /// The faults of the creation of the repository.
    pub init: Seq<FaultRule>,
    /// The steps.
    pub steps: Seq<StepModel>,
}

impl View for Case {
    type V = CaseModel;

    open spec fn view(&self) -> CaseModel {
        CaseModel { init: self.init@, steps: self.steps@.map_values(|step: Step| step@) }
    }
}

/// The first `n` steps that a generator with the state `s` gives after the steps `first`, and the
/// state after them.
pub open spec fn generated_steps(first: Seq<StepModel>, s: u64, faults: Faults, n: nat) -> (
    Seq<StepModel>,
    u64,
)
    decreases n,
{
    if n == 0 {
        (first, s)
    } else {
        let (before, state) = generated_steps(first, s, faults, (n - 1) as nat);
        let (step, next) = StepModel::generated(state, faults);
        (before.push(step), next)
    }
}

impl CaseModel {
    /// The case that a generator with the state `s` gives, and the state after it.
    pub open spec fn generated(s: u64, faults: Faults) -> (CaseModel, u64) {
        let (init, s1) = generated_plan(s, INIT_CALLS@);
        let (tree, s2) = TreeModel::generated(s1, false);
        let first = seq![StepModel::Backup(tree, Seq::empty())];
        let count = 2 + rng::rng_below(s2, 6);
        let (steps, s3) = generated_steps(first, rng::rng_step(s2), faults, count);
        (CaseModel { init, steps }, s3)
    }

    /// Whether the case has 3 to 8 steps, its first step is a backup without faults of a readable
    /// tree, and `faults` allows each step.
    pub open spec fn is_allowed(self, faults: Faults) -> bool {
        &&& is_plan_for(self.init, INIT_CALLS@)
        &&& 3 <= self.steps.len() <= 8
        &&& self.steps[0] matches StepModel::Backup(tree, rules)
        &&& tree.unreadable is None
        &&& rules.len() == 0
        &&& forall|i: int| 0 <= i < self.steps.len() ==> (#[trigger] self.steps[i]).is_allowed(faults)
    }
}

impl Case {
    /// Generates a case.
    pub fn generate(rng: &mut Rng, faults: Faults) -> (r: Self)
        ensures
            (r@, final(rng).state) == CaseModel::generated(old(rng).state, faults),
            r@.is_allowed(faults),
    {
        let init = FaultRule::generate_plan(rng, &INIT_CALLS);
        let tree = TreeSpec::generate(rng, false);
        let ghost first = seq![StepModel::Backup(tree@, Seq::empty())];
        let mut steps: Vec<Step> = Vec::new();
        let no_faults: Vec<FaultRule> = Vec::new();
        assert(no_faults@ =~= Seq::empty());
        steps.push(Step::Backup { tree, faults: no_faults });
        let count: usize = 2 + rng.below(6);
        let ghost start = rng.state;
        assert(steps@.map_values(|step: Step| step@) =~= first);
        for i in 0..count
            invariant
                steps.len() == i + 1,
                first.len() == 1,
                steps@[0]@ == first[0],
                (steps@.map_values(|step: Step| step@), rng.state) == generated_steps(
                    first,
                    start,
                    faults,
                    i as nat,
                ),
                forall|j: int| 0 <= j < steps.len() ==> (#[trigger] steps@[j])@.is_allowed(faults),
        {
            let ghost before = steps@.map_values(|step: Step| step@);
            let step = Step::generate(rng, faults);
            steps.push(step);
            assert(steps@.map_values(|step: Step| step@) =~= before.push(step@));
        }
        Case { init, steps }
    }
}

/// The same seed gives the same case.
pub proof fn law_seed_gives_case(seed: u64, faults: Faults, a: Rng, b: Rng, x: Case, y: Case)
    requires
        call_ensures(Rng::new, (seed,), a),
        call_ensures(Rng::new, (seed,), b),
        x@ == CaseModel::generated(a.state, faults).0,
        y@ == CaseModel::generated(b.state, faults).0,
    ensures
        x@ == y@,
{
}

/// A rule that hits only one call injects one fault, and a rule that hits from a call on injects a
/// fault into each later matching call. A rule changes nothing for calls that it does not match.
pub proof fn law_rule_counts_matching_calls(rule: FaultRule, call: BackendCall, count: usize)
    requires
        count < usize::MAX,
    ensures
        !rule.matches_call(call) ==> rule.decided(call, count) is None && rule.counted(call, count)
            == count,
        rule.matches_call(call) ==> rule.counted(call, count) == count + 1,
        rule.trigger is Nth && rule.decided(call, count) is Some ==> forall|later: usize|
            later != count ==> (#[trigger] rule.decided(call, later)) is None,
        rule.trigger is From && rule.decided(call, count) is Some ==> forall|later: usize|
            later > count ==> (#[trigger] rule.decided(call, later)) == Some(rule.fault),
{
}

/// A rule looks at the operation and the file type of a call, and at nothing else of it. It counts a
/// call exactly if the call has the operation of the rule and, if the rule has a file type, this
/// file type. It gives its fault for such a call exactly if its trigger hits, and it gives no other
/// fault.
pub proof fn law_rule_looks_at_operation_and_type(
    rule: FaultRule,
    call: BackendCall,
    count: &mut usize,
    r: Option<Fault>,
)
    requires
        call_ensures(FaultRule::fault_for, (&rule, &call, count), r),
    ensures
        call.op != rule.op ==> r is None && *final(count) == *old(count),
        rule.tpe is Some && rule.tpe != Some(call.tpe) ==> r is None && *final(count) == *old(count),
        call.op == rule.op && (rule.tpe is None || rule.tpe == Some(call.tpe)) ==> {
            &&& *old(count) < usize::MAX ==> *final(count) == *old(count) + 1
            &&& r is Some <==> match rule.trigger {
                Trigger::Nth(nth) => *old(count) == nth,
                Trigger::From(from) => *old(count) >= from,
            }
        },
        r is Some ==> r == Some(rule.fault),
{
}

/// Two calls with the same operation and the same file type get the same decision of a rule, and
/// the same count, whatever file they ask for, and if they ask for no file at all.
pub proof fn law_id_decides_nothing(
    rule: FaultRule,
    a: BackendCall,
    a_count: &mut usize,
    x: Option<Fault>,
    b: BackendCall,
    b_count: &mut usize,
    y: Option<Fault>,
)
    requires
        a.op == b.op,
        a.tpe == b.tpe,
        *old(a_count) == *old(b_count),
        call_ensures(FaultRule::fault_for, (&rule, &a, a_count), x),
        call_ensures(FaultRule::fault_for, (&rule, &b, b_count), y),
    ensures
        x == y,
        *final(a_count) == *final(b_count),
{
}

/// In a run of calls, a rule numbers the calls with its operation and, if it has one, its file
/// type, from 0 on. A rule that hits only one call gives its fault for the call with that number
/// and for no other. A rule that hits from a call on gives its fault for the call with that number
/// and for each later one. Calls between them do not matter.
pub proof fn law_trigger_numbers_the_calls(
    rule: FaultRule,
    calls: Seq<BackendCall>,
    counts: Seq<usize>,
    faults: Seq<Option<Fault>>,
    i: int,
)
    requires
        counts.len() == calls.len() + 1,
        faults.len() == calls.len(),
        calls.len() <= usize::MAX,
        counts[0] == 0,
        forall|k: int|
            0 <= k < calls.len() ==> #[trigger] faults[k] == rule.decided(calls[k], counts[k]),
        forall|k: int|
            0 <= k < calls.len() ==> counts[k + 1] == rule.counted(
                #[trigger] calls[k],
                counts[k],
            ),
        0 <= i < calls.len(),
    ensures
        ({
            let mine = |call: BackendCall|
                call.op == rule.op && (rule.tpe is None || rule.tpe == Some(call.tpe));
            let number = calls.take(i).filter(mine).len();
            faults[i] == if mine(calls[i]) && match rule.trigger {
                Trigger::Nth(nth) => number == nth,
                Trigger::From(from) => number >= from,
            } {
                Some(rule.fault)
            } else {
                None
            }
        }),
{
    lemma_count_is_number(rule, calls, counts, i);
    assert(faults[i] == rule.decided(calls[i], counts[i]));
}

proof fn lemma_count_is_number(
    rule: FaultRule,
    calls: Seq<BackendCall>,
    counts: Seq<usize>,
    i: int,
)
    requires
        counts.len() == calls.len() + 1,
        calls.len() <= usize::MAX,
        counts[0] == 0,
        forall|k: int|
            0 <= k < calls.len() ==> counts[k + 1] == rule.counted(
                #[trigger] calls[k],
                counts[k],
            ),
        0 <= i <= calls.len(),
    ensures
        ({
            let mine = |call: BackendCall|
                call.op == rule.op && (rule.tpe is None || rule.tpe == Some(call.tpe));
            counts[i] == calls.take(i).filter(mine).len() && counts[i] <= i
        }),
    decreases i,
{
    let mine = |call: BackendCall|
        call.op == rule.op && (rule.tpe is None || rule.tpe == Some(call.tpe));
    reveal(Seq::filter);
    if i > 0 {
        lemma_count_is_number(rule, calls, counts, i - 1);
        assert(calls.take(i).drop_last() =~= calls.take(i - 1));
        assert(calls.take(i).last() == calls[i - 1]);
        assert(counts[i - 1 + 1] == rule.counted(calls[i - 1], counts[i - 1]));
    } else {
        assert(calls.take(0) =~= Seq::empty());
    }
}

/// A plan gives a fault for a call exactly if one of its rules has the operation of the call, no
/// file type or the file type of the call, and a trigger that hits. The first such rule gives its
/// fault. The rules up to that rule count the call, and the later rules do not see it.
pub proof fn law_first_rule_that_hits_decides(
    plan: &mut FaultPlan,
    call: BackendCall,
    r: Option<Fault>,
    i: int,
)
    requires
        call_ensures(FaultPlan::fault_for, (plan, &call), r),
        0 <= i < old(plan).rules().len(),
        old(plan).counts().len() == old(plan).rules().len(),
        forall|j: int|
            0 <= j < i ==> {
                let rule = #[trigger] old(plan).rules()[j];
                ||| rule.op != call.op
                ||| rule.tpe is Some && rule.tpe != Some(call.tpe)
                ||| match rule.trigger {
                    Trigger::Nth(nth) => old(plan).counts()[j] != nth,
                    Trigger::From(from) => old(plan).counts()[j] < from,
                }
            },
    ensures
        final(plan).rules() == old(plan).rules(),
        ({
            let rule = old(plan).rules()[i];
            let mine = call.op == rule.op && (rule.tpe is None || rule.tpe == Some(call.tpe));
            let hits = match rule.trigger {
                Trigger::Nth(nth) => old(plan).counts()[i] == nth,
                Trigger::From(from) => old(plan).counts()[i] >= from,
            };
            &&& mine && hits ==> {
                &&& r == Some(rule.fault)
                &&& forall|j: int|
                    i < j < old(plan).rules().len() ==> #[trigger] final(plan).counts()[j]
                        == old(plan).counts()[j]
            }
            &&& mine && old(plan).counts()[i] < usize::MAX ==> final(plan).counts()[i]
                == old(plan).counts()[i] + 1
            &&& !mine ==> final(plan).counts()[i] == old(plan).counts()[i]
            &&& !(mine && hits) && i == old(plan).rules().len() - 1 ==> r is None
        }),
{
    let rules = old(plan).rules();
    let counts = old(plan).counts();
    assert(none_before(rules, counts, call, i)) by {
        assert forall|j: int| 0 <= j < i implies (#[trigger] rules[j]).decided(call, counts[j])
            is None by {
            let rule = old(plan).rules()[j];
        }
    }
    if rules[i].decided(call, counts[i]) is Some {
        let first = choose|k: int|
            0 <= k < rules.len() && (#[trigger] rules[k]).decided(call, counts[k]) == Some(r->0)
                && none_before(rules, counts, call, k);
        assert(r is Some);
        assert(first == i) by {
            if first < i {
                assert(rules[first].decided(call, counts[first]) is None);
            }
        }
        assert forall|j: int| i < j < rules.len() implies #[trigger] final(plan).counts()[j]
            == counts[j] by {
            assert(!none_before(rules, counts, call, j));
        }
    } else if i == rules.len() - 1 {
        if r is Some {
            let first = choose|k: int|
                0 <= k < rules.len() && (#[trigger] rules[k]).decided(call, counts[k]) == Some(
                    r->0,
                ) && none_before(rules, counts, call, k);
            assert(rules[first].decided(call, counts[first]) is None);
        }
    }
    assert(final(plan).counts()[i] == rules[i].counted(call, counts[i]));
}

/// A plan without rules, and a plan whose rules all look for other calls, give no fault.
pub proof fn law_other_calls_get_no_fault(plan: &mut FaultPlan, call: BackendCall, r: Option<Fault>)
    requires
        call_ensures(FaultPlan::fault_for, (plan, &call), r),
        forall|j: int|
            0 <= j < old(plan).rules().len() ==> {
                let rule = #[trigger] old(plan).rules()[j];
                rule.op != call.op || rule.tpe is Some && rule.tpe != Some(call.tpe)
            },
    ensures
        r is None,
{
    let rules = old(plan).rules();
    let counts = old(plan).counts();
    if r is Some {
        let first = choose|k: int|
            0 <= k < rules.len() && (#[trigger] rules[k]).decided(call, counts[k]) == Some(r->0)
                && none_before(rules, counts, call, k);
        let rule = old(plan).rules()[first];
        assert(rules[first].decided(call, counts[first]) is None);
    }
}

/// A plan has no rule with one draw of four, two rules with one draw of four, and else one rule.
pub proof fn law_plan_has_rules_by_its_draw(
    a: &mut Rng,
    draw: usize,
    b: &mut Rng,
    calls: &[(BackendOp, FileType)],
    rules: Vec<FaultRule>,
)
    requires
        *old(b) == *old(a),
        calls@.len() > 0,
        call_ensures(Rng::below, (a, 4), draw),
        call_ensures(FaultRule::generate_plan, (b, calls), rules),
    ensures
        draw == 0 ==> rules.len() == 0,
        draw == 3 ==> rules.len() == 2,
        draw == 1 || draw == 2 ==> rules.len() == 1,
{
    reveal_with_fuel(generated_rules, 3);
}

/// A rule gets its call, whether it has a file type, its fault, the kind of its trigger and the index of
/// its trigger from the next draws, in this order. It has the operation of the call. Three rules of
/// four have the file type of the call.
pub proof fn law_rule_follows_its_draws(
    a: &mut Rng,
    count: usize,
    b: &mut Rng,
    call: (BackendOp, FileType),
    c: &mut Rng,
    typed: bool,
    d: &mut Rng,
    fault: Fault,
    e: &mut Rng,
    once: bool,
    f: &mut Rng,
    index: usize,
    all: &mut Rng,
    calls: &[(BackendOp, FileType)],
    rules: Vec<FaultRule>,
)
    requires
        calls@.len() > 0,
        *old(all) == *old(a),
        call_ensures(Rng::below, (a, 4), count),
        *old(b) == *final(a),
        call_ensures(Rng::pick::<(BackendOp, FileType)>, (b, calls), call),
        *old(c) == *final(b),
        call_ensures(Rng::chance, (c, 3, 4), typed),
        *old(d) == *final(c),
        call_ensures(Rng::pick::<Fault>, (d, &FAULTS), fault),
        *old(e) == *final(d),
        call_ensures(Rng::chance, (e, 1, 2), once),
        *old(f) == *final(e),
        call_ensures(Rng::below, (f, 3), index),
        call_ensures(FaultRule::generate_plan, (all, calls), rules),
        rules.len() > 0,
    ensures
        rules@[0].op == call.0,
        rules@[0].tpe == if typed {
            Some(call.1)
        } else {
            None
        },
        rules@[0].fault == fault,
        rules@[0].trigger == if once {
            Trigger::Nth(index)
        } else {
            Trigger::From(index)
        },
        rules.len() == 1 ==> *final(all) == *final(f),
{
    reveal_with_fuel(generated_rules, 3);
    reveal_with_fuel(tree_spec::steps, 6);
}

/// A restore has a read-only directory with one draw of four, and a small volume with two draws of
/// four, if the run can have them. A volume has 1 to 64 pages of 4,096 bytes.
pub proof fn law_destination_follows_its_draws(
    a: &mut Rng,
    kind: usize,
    b: &mut Rng,
    dir: usize,
    c: &mut Rng,
    pages: usize,
    all: &mut Rng,
    faults: Faults,
    r: DestFault,
)
    requires
        *old(all) == *old(a),
        call_ensures(Rng::below, (a, 4), kind),
        *old(b) == *final(a),
        call_ensures(Rng::below, (b, 4), dir),
        *old(c) == *final(a),
        call_ensures(Rng::below, (c, 64), pages),
        call_ensures(DestFault::generate, (all, faults), r),
    ensures
        kind == 0 && faults.read_only ==> r == DestFault::ReadOnlyDir(dir),
        (kind == 1 || kind == 2) && faults.volume ==> r is Volume && r->Volume_0 == 4_096 * (pages
            + 1),
        kind == 3 || kind == 0 && !faults.read_only || (kind == 1 || kind == 2) && !faults.volume
            ==> r == DestFault::Nothing,
{
    assert(READ_ONLY_TARGETS@.len() == 4);
}

/// A step is a backup with three draws of eight, a restore with three, a delete with one, and a prune
/// with one.
pub proof fn law_step_follows_its_draw(a: &mut Rng, kind: usize, b: &mut Rng, faults: Faults, r: Step)
    requires
        *old(b) == *old(a),
        call_ensures(Rng::below, (a, 8), kind),
        call_ensures(Step::generate, (b, faults), r),
    ensures
        r is Backup <==> kind <= 2,
        r is Restore <==> 3 <= kind <= 5,
        r is Delete <==> kind == 6,
        r is Prune <==> kind == 7,
{
}

/// A case starts with the plan of the creation of the repository. Its first step is a backup of the
/// tree that comes next, without an unreadable entry and without faults. It has 3 to 8 steps, by the
/// next draw.
pub proof fn law_case_follows_its_draws(
    a: &mut Rng,
    init: Vec<FaultRule>,
    b: &mut Rng,
    tree: TreeSpec,
    c: &mut Rng,
    more: usize,
    all: &mut Rng,
    faults: Faults,
    r: Case,
)
    requires
        *old(all) == *old(a),
        call_ensures(FaultRule::generate_plan, (a, &INIT_CALLS), init),
        *old(b) == *final(a),
        call_ensures(TreeSpec::generate, (b, false), tree),
        *old(c) == *final(b),
        call_ensures(Rng::below, (c, 6), more),
        call_ensures(Case::generate, (all, faults), r),
    ensures
        r.init@ == init@,
        r.steps.len() == 3 + more,
        r.steps@[0] is Backup,
        r.steps@[0]->Backup_tree@ == tree@,
        tree.unreadable is None,
        r.steps@[0]->Backup_faults@.len() == 0,
{
    let first = seq![StepModel::Backup(tree@, Seq::empty())];
    let s = rng::rng_step(final(b).state);
    lemma_generated_steps(first, s, faults, (2 + more) as nat);
    let models = r.steps@.map_values(|step: Step| step@);
    assert(r@.steps == models);
    assert(models.len() == r.steps.len());
    assert(models[0] == r.steps@[0]@);
}

proof fn lemma_generated_steps(first: Seq<StepModel>, s: u64, faults: Faults, n: nat)
    requires
        first.len() == 1,
    ensures
        generated_steps(first, s, faults, n).0.len() == n + 1,
        generated_steps(first, s, faults, n).0[0] == first[0],
    decreases n,
{
    if n > 0 {
        lemma_generated_steps(first, s, faults, (n - 1) as nat);
    }
}

/// A restore step gets its selection, its number of threads, the fault of its destination and its
/// plan from the next draws, in this order. The number 0 of threads stands for the default.
pub proof fn law_restore_step_follows_its_draws(
    a: &mut Rng,
    kind: usize,
    b: &mut Rng,
    pick: usize,
    c: &mut Rng,
    threads: usize,
    d: &mut Rng,
    dest: DestFault,
    e: &mut Rng,
    rules: Vec<FaultRule>,
    all: &mut Rng,
    faults: Faults,
    r: Step,
)
    requires
        *old(all) == *old(a),
        call_ensures(Rng::below, (a, 8), kind),
        3 <= kind <= 5,
        *old(b) == *final(a),
        call_ensures(Rng::below, (b, usize::MAX), pick),
        *old(c) == *final(b),
        call_ensures(Rng::pick::<usize>, (c, &THREADS), threads),
        *old(d) == *final(c),
        call_ensures(DestFault::generate, (d, faults), dest),
        *old(e) == *final(d),
        call_ensures(FaultRule::generate_plan, (e, &RESTORE_CALLS), rules),
        call_ensures(Step::generate, (all, faults), r),
    ensures
        r is Restore,
        r->Restore_pick == pick,
        threads == 0 ==> r->threads is None,
        threads > 0 ==> r->threads == Some(threads),
        r->dest == dest,
        r->Restore_faults@ == rules@,
        *final(all) == *final(e),
{
}

/// A backup step gets its tree and its plan, a delete step its selection and its plan, and a prune step
/// its plan from the next draws. Each plan is for the calls of its step.
pub proof fn law_other_steps_follow_their_draws(
    a: &mut Rng,
    kind: usize,
    b: &mut Rng,
    tree: TreeSpec,
    c: &mut Rng,
    pick: usize,
    d: &mut Rng,
    backup: Vec<FaultRule>,
    e: &mut Rng,
    delete: Vec<FaultRule>,
    f: &mut Rng,
    prune: Vec<FaultRule>,
    all: &mut Rng,
    faults: Faults,
    r: Step,
)
    requires
        *old(all) == *old(a),
        call_ensures(Rng::below, (a, 8), kind),
        *old(b) == *final(a),
        call_ensures(TreeSpec::generate, (b, faults.unreadable), tree),
        *old(c) == *final(a),
        call_ensures(Rng::below, (c, usize::MAX), pick),
        *old(d) == *final(b),
        call_ensures(FaultRule::generate_plan, (d, &BACKUP_CALLS), backup),
        *old(e) == *final(c),
        call_ensures(FaultRule::generate_plan, (e, &DELETE_CALLS), delete),
        *old(f) == *final(a),
        call_ensures(FaultRule::generate_plan, (f, &PRUNE_CALLS), prune),
        call_ensures(Step::generate, (all, faults), r),
    ensures
        kind <= 2 ==> r is Backup && r->tree@ == tree@ && r->Backup_faults@ == backup@,
        kind == 6 ==> r is Delete && r->Delete_pick == pick && r->Delete_faults@ == delete@,
        kind == 7 ==> r is Prune && r->Prune_faults@ == prune@,
{
}

/// The count of a rule starts again at 0 after its maximum, and stays at its maximum for calls that
/// are not the rule's.
pub proof fn law_count_starts_again(
    rule: FaultRule,
    call: BackendCall,
    count: &mut usize,
    r: Option<Fault>,
)
    requires
        call_ensures(FaultRule::fault_for, (&rule, &call, count), r),
        *old(count) == usize::MAX,
    ensures
        call.op == rule.op && (rule.tpe is None || rule.tpe == Some(call.tpe)) ==> *final(count)
            == 0,
        call.op != rule.op || rule.tpe is Some && rule.tpe != Some(call.tpe) ==> *final(count)
            == usize::MAX,
{
}

/// A new plan has the rules, and each of them has matched no call.
pub proof fn law_new_plan_matched_nothing(rules: Vec<FaultRule>, plan: FaultPlan, i: int)
    requires
        call_ensures(FaultPlan::new, (&rules,), plan),
        0 <= i < rules.len(),
    ensures
        plan.rules().len() == rules.len(),
        plan.rules()[i] == rules@[i],
        plan.counts()[i] == 0,
{
}

/// Whether a generator with the state `states[i]` gives the step `steps[i]`, and has the state
/// `states[i + 1]` after it, for each `i`.
pub open spec fn follow_steps(states: Seq<u64>, steps: Seq<StepModel>, faults: Faults) -> bool {
    &&& states.len() == steps.len() + 1
    &&& forall|i: int|
        0 <= i < steps.len() ==> (#[trigger] steps[i], states[i + 1]) == StepModel::generated(
            states[i],
            faults,
        )
}

proof fn lemma_follow_steps(
    first: Seq<StepModel>,
    states: Seq<u64>,
    steps: Seq<StepModel>,
    faults: Faults,
    n: nat,
)
    requires
        follow_steps(states, steps, faults),
        n <= steps.len(),
    ensures
        generated_steps(first, states[0], faults, n) == (first + steps.take(n as int), states[n as int]),
    decreases n,
{
    if n == 0 {
        assert(first + steps.take(0) =~= first);
    } else {
        let last = n - 1;
        lemma_follow_steps(first, states, steps, faults, last as nat);
        assert((steps[last], states[last + 1]) == StepModel::generated(states[last], faults));
        assert((first + steps.take(last)).push(steps[last]) =~= first + steps.take(n as int));
    }
}

/// The steps of a case after its first backup are the steps that come next, each from the state after
/// the step before it.
pub proof fn law_case_has_the_next_steps(
    a: &mut Rng,
    init: Vec<FaultRule>,
    b: &mut Rng,
    tree: TreeSpec,
    c: &mut Rng,
    more: usize,
    states: Seq<u64>,
    steps: Seq<StepModel>,
    all: &mut Rng,
    faults: Faults,
    r: Case,
    i: int,
)
    requires
        *old(all) == *old(a),
        call_ensures(FaultRule::generate_plan, (a, &INIT_CALLS), init),
        *old(b) == *final(a),
        call_ensures(TreeSpec::generate, (b, false), tree),
        *old(c) == *final(b),
        call_ensures(Rng::below, (c, 6), more),
        follow_steps(states, steps, faults),
        steps.len() == 2 + more,
        states[0] == final(c).state,
        call_ensures(Case::generate, (all, faults), r),
        0 <= i < steps.len(),
    ensures
        r.steps.len() == steps.len() + 1,
        r.steps@[i + 1]@ == steps[i],
        final(all).state == states.last(),
{
    let first = seq![StepModel::Backup(tree@, Seq::empty())];
    lemma_follow_steps(first, states, steps, faults, steps.len());
    let models = r.steps@.map_values(|step: Step| step@);
    assert(r@.steps == models);
    assert(models == first + steps.take(steps.len() as int));
    assert(models.len() == r.steps.len());
    assert(models[i + 1] == r.steps@[i + 1]@);
}

/// The second rule of a plan is the first rule of the plan that a generator gives which comes to the
/// state after the first rule with the draw of its number of rules.
pub proof fn law_second_rule_follows_the_first(
    a: &mut Rng,
    calls: &[(BackendOp, FileType)],
    two: Vec<FaultRule>,
    b: &mut Rng,
    draw: usize,
    c: &mut Rng,
    call: (BackendOp, FileType),
    d: &mut Rng,
    typed: bool,
    e: &mut Rng,
    fault: Fault,
    f: &mut Rng,
    once: bool,
    g: &mut Rng,
    index: usize,
    h: &mut Rng,
    number: usize,
    next: &mut Rng,
    other: Vec<FaultRule>,
)
    requires
        calls@.len() > 0,
        *old(b) == *old(a),
        call_ensures(Rng::below, (b, 4), draw),
        draw == 3,
        *old(c) == *final(b),
        call_ensures(Rng::pick::<(BackendOp, FileType)>, (c, calls), call),
        *old(d) == *final(c),
        call_ensures(Rng::chance, (d, 3, 4), typed),
        *old(e) == *final(d),
        call_ensures(Rng::pick::<Fault>, (e, &FAULTS), fault),
        *old(f) == *final(e),
        call_ensures(Rng::chance, (f, 1, 2), once),
        *old(g) == *final(f),
        call_ensures(Rng::below, (g, 3), index),
        call_ensures(FaultRule::generate_plan, (a, calls), two),
        *old(h) == *old(next),
        call_ensures(Rng::below, (h, 4), number),
        number > 0,
        *final(h) == *final(g),
        call_ensures(FaultRule::generate_plan, (next, calls), other),
    ensures
        two.len() == 2,
        two@[1] == other@[0],
        number < 3 ==> *final(a) == *final(next),
{
    reveal_with_fuel(generated_rules, 3);
    reveal_with_fuel(tree_spec::steps, 6);
}

} // verus!
