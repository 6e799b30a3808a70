//! The runner of the scenarios: its arguments, its child processes and its waits.

use std::sync::Arc;

use vstd::prelude::*;

use crate::text::{self, owned, push_decimal, same_text};

verus! {

/// The names of the scenarios, in the order in which the runner runs them.
pub const SCENARIO_NAMES: [&'static str; 29] = [
    "restore-without-faults",
    "restore-sparse-without-faults",
    "restore-pack-read",
    "restore-short-pack-read",
    "cached-tree-read-short-pack",
    "restore-decrypt",
    "restore-existing-file-read",
    "restore-set-length",
    "restore-stops-after-first-error",
    "restore-stops-after-first-error-with-one-thread",
    "restore-write-stops-after-first-error",
    "restore-reader-threads",
    "restore-default-reader-threads",
    "restore-full-volume",
    "backup-unreadable-file",
    "backup-unreadable-dir",
    "backup-skips-unreadable-file-without-option",
    "backup-stops-after-first-error",
    "metadata-symlink",
    "metadata-ownership",
    "metadata-permission",
    "metadata-extended-attributes",
    "metadata-times",
    "metadata-errors-are-warnings-without-option",
    "property-no-cache",
    "property-cache",
    "property-full-volume",
    "prune-tree-read",
    "prune-stops-after-first-error",
];

/// The maximum time of one scenario in seconds. The runner stops a child process that runs longer.
pub const SCENARIO_TIMEOUT: u64 = 1_200;

/// The time in milliseconds between two checks of the status of a child process.
pub const CHILD_POLL_INTERVAL: u64 = 100;

/// The time in milliseconds between two checks of the references to a value.
pub const RELEASE_POLL_INTERVAL: u64 = 10;

/// The maximum time in seconds for the threads of an operation to stop after the operation returns.
pub const RELEASE_TIMEOUT: u64 = 30;

/// The exit code of a run that passed.
pub const EXIT_SUCCESS: u8 = 0;

/// The exit code of a run that failed.
pub const EXIT_FAILURE: u8 = 1;

/// The exit code of a run that could not start.
pub const EXIT_USAGE: u8 = 2;

/// The argument before the name of a scenario.
pub const SCENARIO_FLAG: &'static str = "--scenario";

/// What the runner does.
#[derive(Debug)]
pub enum Command {
    /// Run each scenario in a child process.
    RunAll,
    /// Run the scenario with this name in this process.
    RunOne(String),
    /// Print the usage, and stop.
    Usage,
}

/// Gives what the runner does for the arguments `args`, which do not hold the name of the program.
pub fn parse_args(args: &Vec<String>) -> (r: Command)
    ensures
        if args@.len() == 0 {
            r is RunAll
        } else if args@.len() == 2 && args@[0]@ == SCENARIO_FLAG@ {
            r matches Command::RunOne(name) && name@ == args@[1]@
        } else {
            r is Usage
        },
{
    if args.len() == 0 {
        Command::RunAll
    } else if args.len() == 2 && same_text(args[0].as_str(), SCENARIO_FLAG) {
        Command::RunOne(owned(args[1].as_str()))
    } else {
        Command::Usage
    }
}

/// Gives the index of the scenario `name` in [`SCENARIO_NAMES`].
pub fn find_scenario(name: &str) -> (r: Option<usize>)
    ensures
        match r {
            Some(index) => index < SCENARIO_NAMES@.len() && SCENARIO_NAMES@[index as int]@ == name@
                && forall|i: int| 0 <= i < index ==> (#[trigger] SCENARIO_NAMES@[i])@ != name@,
            None => forall|i: int|
                0 <= i < SCENARIO_NAMES@.len() ==> (#[trigger] SCENARIO_NAMES@[i])@ != name@,
        },
{
    let n: usize = SCENARIO_NAMES.len();
    for i in 0..n
        invariant
            n == SCENARIO_NAMES@.len(),
            forall|j: int| 0 <= j < i ==> (#[trigger] SCENARIO_NAMES@[j])@ != name@,
    {
        if same_text(SCENARIO_NAMES[i], name) {
            return Some(i);
        }
    }
    None
}

/// The result of a scenario in this process.
#[derive(Debug)]
pub enum OneResult {
    /// There is no scenario with the name.
    Unknown,
    /// The scenario gave its expected result.
    Passed,
    /// The scenario failed with this error.
    Failed(String),
}

/// Gives the exit code of the scenario `name` in this process, and the message for the user.
pub fn run_one(name: &str, result: &OneResult) -> (r: (u8, Option<String>))
    ensures
        match result {
            OneResult::Unknown => r.0 == EXIT_USAGE && r.1 is Some && r.1->Some_0@
                == "Unknown scenario `"@ + name@ + "`."@,
            OneResult::Passed => r.0 == EXIT_SUCCESS && r.1 is None,
            OneResult::Failed(err) => r.0 == EXIT_FAILURE && r.1 is Some && r.1->Some_0@
                == "Scenario `"@ + name@ + "` failed: "@ + err@,
        },
{
    match result {
        OneResult::Unknown => {
            let mut out = owned("Unknown scenario `");
            out.append(name);
            out.append("`.");
            (EXIT_USAGE, Some(out))
        },
        OneResult::Passed => (EXIT_SUCCESS, None),
        OneResult::Failed(err) => {
            let mut out = owned("Scenario `");
            out.append(name);
            out.append("` failed: ");
            out.append(err.as_str());
            (EXIT_FAILURE, Some(out))
        },
    }
}

/// How a child process ended.
#[derive(Debug)]
pub enum ChildEnd {
    /// It exited with the status 0.
    Passed,
    /// It ended with this other status.
    Failed(String),
    /// It did not stop in time.
    TimedOut,
    /// It did not start, or its status cannot be read, with this error.
    NotStarted(String),
}

/// The description of the end of a child process.
pub open spec fn end_text(end: ChildEnd) -> Seq<char> {
    match end {
        ChildEnd::Passed => "passed"@,
        ChildEnd::Failed(status) => "FAILED ("@ + status@ + ")"@,
        ChildEnd::TimedOut => "FAILED (the child process did not stop in "@ + text::decimal(
            SCENARIO_TIMEOUT as nat,
        ) + " seconds)"@,
        ChildEnd::NotStarted(err) => "FAILED (the child process did not start: "@ + err@ + ")"@,
    }
}

/// Describes the end of a child process.
pub fn describe(end: &ChildEnd) -> (r: String)
    ensures
        r@ == end_text(*end),
{
    let mut out = String::new();
    match end {
        ChildEnd::Passed => {
            out.append("passed");
        },
        ChildEnd::Failed(status) => {
            out.append("FAILED (");
            out.append(status.as_str());
            out.append(")");
        },
        ChildEnd::TimedOut => {
            out.append("FAILED (the child process did not stop in ");
            push_decimal(&mut out, SCENARIO_TIMEOUT);
            out.append(" seconds)");
        },
        ChildEnd::NotStarted(err) => {
            out.append("FAILED (the child process did not start: ");
            out.append(err.as_str());
            out.append(")");
        },
    }
    assert(out@ =~= end_text(*end));
    out
}

/// The number of child processes among `ends` that did not pass.
pub open spec fn failures(ends: Seq<ChildEnd>) -> nat
    decreases ends.len(),
{
    if ends.len() == 0 {
        0
    } else {
        failures(ends.drop_last()) + if ends.last() is Passed {
            0nat
        } else {
            1
        }
    }
}

/// Gives the summary of a run of all scenarios, and its exit code.
pub fn run_all(ends: &Vec<ChildEnd>) -> (r: (u8, String))
    ensures
        r.0 == if failures(ends@) == 0 {
            EXIT_SUCCESS
        } else {
            EXIT_FAILURE
        },
        r.1@ == text::decimal(ends@.len()) + " scenarios, "@ + text::decimal(failures(ends@))
            + " failed"@,
{
    let mut failed: usize = 0;
    let n: usize = ends.len();
    assert(ends@.take(0) =~= Seq::empty());
    for i in 0..n
        invariant
            n == ends.len(),
            failed <= i,
            failed == failures(ends@.take(i as int)),
    {
        proof {
            let next = ends@.take(i + 1);
            assert(next.drop_last() =~= ends@.take(i as int));
            assert(next.last() == ends@[i as int]);
        }
        match &ends[i] {
            ChildEnd::Passed => {},
            ChildEnd::Failed(_) | ChildEnd::TimedOut | ChildEnd::NotStarted(_) => {
                failed = failed + 1;
            },
        }
    }
    assert(ends@.take(n as int) =~= ends@);
    let mut out = text::decimal_text(n as u64);
    out.append(" scenarios, ");
    push_decimal(&mut out, failed as u64);
    out.append(" failed");
    let code: u8 = if failed == 0 {
        EXIT_SUCCESS
    } else {
        EXIT_FAILURE
    };
    (code, out)
}

/// What the runner does after it looked at the status of a child process.
#[derive(Debug, Clone, Copy, PartialEq, Eq, Structural)]
pub enum ChildWait {
    /// Take the status, or the error.
    Take,
    /// Wait [`CHILD_POLL_INTERVAL`], and look again.
    Again,
    /// Stop the child process, and wait for its end.
    Kill,
}

/// Decides what the runner does after it looked at the status of a child process.
///
/// # Arguments
///
/// * `runs` - Whether the child process still runs
/// * `in_time` - Whether it has run less than [`SCENARIO_TIMEOUT`]
pub fn wait_with_timeout(runs: bool, in_time: bool) -> (r: ChildWait)
    ensures
        r == if !runs {
            ChildWait::Take
        } else if in_time {
            ChildWait::Again
        } else {
            ChildWait::Kill
        },
{
    if !runs {
        ChildWait::Take
    } else if in_time {
        ChildWait::Again
    } else {
        ChildWait::Kill
    }
}

/// What a wait for a value does next.
#[derive(Debug)]
pub enum ReleaseWait {
    /// The caller holds the only strong reference.
    Released,
    /// Wait [`RELEASE_POLL_INTERVAL`], and look again.
    Again,
    /// Other strong references exist after the timeout.
    Failed(String),
}

/// Whether `r` is what a wait does next, if the value has `count` strong references.
pub open spec fn release_step(
    count: usize,
    in_time: bool,
    timeout: Seq<char>,
    r: ReleaseWait,
) -> bool {
    if count == 1 {
        r is Released
    } else if in_time {
        r is Again
    } else {
        r matches ReleaseWait::Failed(message) && message@ == text::decimal((count - 1) as nat)
            + " other strong references exist after "@ + timeout
    }
}

/// Gives what a wait does next, if the value has `count` strong references.
///
/// # Arguments
///
/// * `count` - The number of strong references, with the reference of the caller
/// * `in_time` - Whether the timeout has not passed
/// * `timeout` - The text of the timeout
pub fn after_count(count: usize, in_time: bool, timeout: &str) -> (r: ReleaseWait)
    requires
        count > 0,
    ensures
        release_step(count, in_time, timeout@, r),
{
    if count == 1 {
        ReleaseWait::Released
    } else if in_time {
        ReleaseWait::Again
    } else {
        let mut message = text::decimal_text((count - 1) as u64);
        message.append(" other strong references exist after ");
        message.append(timeout);
        ReleaseWait::Failed(message)
    }
}

/// Calls [`Arc::strong_count`], which gives the number of strong references to the value. The
/// reference `value` is one of them.
///
/// Other threads can hold references, so nothing more is said about the number.
#[verifier::external_body]
fn strong_count<T: ?Sized>(value: &Arc<T>) -> (r: usize)
    ensures
        r > 0,
{
    Arc::strong_count(value)
}

/// Looks if the caller holds the only strong reference to `value`.
///
/// Use this function after an operation that gave clones of `value` to threads that the operation
/// does not join. A thread drops its clones when it stops. A panic hook runs before the thread drops
/// its clones. Thus, when the wait ends with [`ReleaseWait::Released`], a count of the panics
/// includes each panic of these threads.
///
/// # Arguments
///
/// * `value` - The value that the threads share
/// * `in_time` - Whether the timeout has not passed
/// * `timeout` - The text of the timeout
pub fn wait_until_released<T: ?Sized>(value: &Arc<T>, in_time: bool, timeout: &str) -> (r:
    ReleaseWait)
    ensures
        exists|count: usize| count > 0 && #[trigger] release_step(count, in_time, timeout@, r),
{
    let count: usize = strong_count(value);
    let r = after_count(count, in_time, timeout);
    assert(release_step(count, in_time, timeout@, r));
    r
}

/// A run of all scenarios passes only if each child process exits with the status 0.
pub proof fn law_run_passes_only_if_all_pass(ends: Seq<ChildEnd>)
    ensures
        failures(ends) == 0 <==> forall|i: int| 0 <= i < ends.len() ==> (#[trigger] ends[i]) is Passed,
        failures(ends) <= ends.len(),
    decreases ends.len(),
{
    if ends.len() > 0 {
        let shorter = ends.drop_last();
        law_run_passes_only_if_all_pass(shorter);
        assert forall|i: int| 0 <= i < shorter.len() implies shorter[i] == ends[i] by {}
        if failures(ends) == 0 {
            assert forall|i: int| 0 <= i < ends.len() implies (#[trigger] ends[i]) is Passed by {
                if i < shorter.len() {
                    assert(shorter[i] is Passed);
                }
            }
        }
        if forall|i: int| 0 <= i < ends.len() ==> (#[trigger] ends[i]) is Passed {
            assert forall|i: int| 0 <= i < shorter.len() implies (
            #[trigger] shorter[i]) is Passed by {
                assert(ends[i] is Passed);
            }
            assert(ends[ends.len() - 1] is Passed);
        }
    }
}

/// A run fails with the exit code 1 if a child process did not exit with the status 0, whatever else
/// happened to it, and passes with the exit code 0 otherwise. The summary tells the number of child
/// processes, and how many of them did not pass.
pub proof fn law_summary_counts_the_failures(ends: Vec<ChildEnd>, r: (u8, String))
    requires
        call_ensures(run_all, (&ends,), r),
    ensures
        r.0 == 0 <==> (forall|i: int| 0 <= i < ends.len() ==> (#[trigger] ends@[i]) is Passed),
        r.0 == 0 || r.0 == 1,
        r.1@ == text::decimal(ends@.len()) + " scenarios, "@ + text::decimal(
            ends@.filter(|end: ChildEnd| !(end is Passed)).len(),
        ) + " failed"@,
{
    law_run_passes_only_if_all_pass(ends@);
    lemma_failures(ends@);
}

proof fn lemma_failures(ends: Seq<ChildEnd>)
    ensures
        failures(ends) == ends.filter(|end: ChildEnd| !(end is Passed)).len(),
    decreases ends.len(),
{
    reveal(Seq::filter);
    if ends.len() > 0 {
        lemma_failures(ends.drop_last());
    }
}

/// A wait ends without an error exactly if the caller holds the only reference. Else it goes on until
/// the timeout, and then fails with the number of the other references.
pub proof fn law_wait_ends_with_the_last_reference(
    count: usize,
    in_time: bool,
    timeout: &str,
    r: ReleaseWait,
)
    requires
        count > 0,
        call_ensures(after_count, (count, in_time, timeout), r),
    ensures
        r is Released <==> count == 1,
        r is Again <==> count > 1 && in_time,
        r is Failed <==> count > 1 && !in_time,
        r is Failed ==> text::is_substring(r->Failed_0@, text::decimal((count - 1) as nat)),
        r is Failed ==> text::is_substring(r->Failed_0@, timeout@),
{
    if r is Failed {
        let message = r->Failed_0@;
        let number = text::decimal((count - 1) as nat);
        assert(message.subrange(0, 0int + number.len()) =~= number);
        assert(text::stands_at(message, number, 0));
        let at = message.len() - timeout@.len();
        assert(message.subrange(at, at + timeout@.len()) =~= timeout@);
        assert(text::stands_at(message, timeout@, at));
    }
}

/// The description of a child process tells if it passed: only the description of a child process
/// that passed does not start with `FAILED`.
pub proof fn law_description_tells_the_failure(end: ChildEnd, r: String)
    requires
        call_ensures(describe, (&end,), r),
    ensures
        r@.len() > 0,
        end is Passed <==> r@[0] != 'F',
        end is Failed ==> text::is_substring(r@, end->Failed_0@),
        end is NotStarted ==> text::is_substring(r@, end->NotStarted_0@),
{
    reveal_strlit("passed");
    reveal_strlit("FAILED (");
    reveal_strlit("FAILED (the child process did not stop in ");
    reveal_strlit("FAILED (the child process did not start: ");
    if end is Failed {
        let part = end->Failed_0@;
        let at = "FAILED ("@.len() as int;
        assert(r@.subrange(at, at + part.len()) =~= part);
        assert(text::stands_at(r@, part, at));
    }
    if end is NotStarted {
        let part = end->NotStarted_0@;
        let at = "FAILED (the child process did not start: "@.len() as int;
        assert(r@.subrange(at, at + part.len()) =~= part);
        assert(text::stands_at(r@, part, at));
    }
}

/// The runner finds each scenario by its name.
pub proof fn law_scenario_is_found_by_its_name(i: int, name: &str, r: Option<usize>)
    requires
        0 <= i < SCENARIO_NAMES@.len(),
        name@ == SCENARIO_NAMES@[i]@,
        call_ensures(find_scenario, (name,), r),
    ensures
        r is Some,
        SCENARIO_NAMES@[r->0 as int]@ == name@,
{
}

/// Without arguments the runner runs all scenarios. With the flag and a name it runs this scenario.
/// With anything else it prints its usage.
pub proof fn law_arguments_choose_the_run(args: Vec<String>, r: Command)
    requires
        call_ensures(parse_args, (&args,), r),
    ensures
        r is RunAll <==> args.len() == 0,
        r is RunOne <==> args.len() == 2 && args@[0]@ == SCENARIO_FLAG@,
        r is RunOne ==> r->RunOne_0@ == args@[1]@,
        args.len() == 1 || args.len() > 2 ==> r is Usage,
{
}

/// The exit code of a scenario is 0 if it passed, 1 if it failed, and 2 if there is no such scenario. A
/// scenario that did not pass gives a message with its name, and with its error if it failed.
pub proof fn law_exit_codes(name: &str, result: OneResult, r: (u8, Option<String>))
    requires
        call_ensures(run_one, (name, &result), r),
    ensures
        result is Passed ==> r.0 == 0 && r.1 is None,
        result is Failed ==> r.0 == 1,
        result is Unknown ==> r.0 == 2,
        !(result is Passed) ==> r.1 is Some && text::is_substring(r.1->0@, name@),
        result is Failed ==> text::is_substring(r.1->0@, result->Failed_0@),
{
    if result is Unknown {
        let message = r.1->0@;
        assert(message =~= ("Unknown scenario `"@ + name@) + "`."@);
        text::lemma_substring(message, name@);
    }
    if result is Failed {
        let message = r.1->0@;
        let err = result->Failed_0@;
        assert(message =~= ("Scenario `"@ + name@) + ("` failed: "@ + err));
        text::lemma_substring(message, name@);
        assert(message =~= (("Scenario `"@ + name@ + "` failed: "@) + err) + Seq::empty());
        text::lemma_substring(message, err);
    }
}

/// The runner takes the status of a child process as soon as it stopped. It waits for a running child
/// process until the timeout, and then stops it.
pub proof fn law_child_has_its_time(runs: bool, in_time: bool, r: ChildWait)
    requires
        call_ensures(wait_with_timeout, (runs, in_time), r),
    ensures
        r == ChildWait::Take <==> !runs,
        r == ChildWait::Again <==> runs && in_time,
        r == ChildWait::Kill <==> runs && !in_time,
{
}

} // verus!
