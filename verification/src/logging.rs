//! The warnings of a process, so that a scenario can count them.

use vstd::prelude::*;

use crate::text::{self, contains, owned};

verus! {

/// The level of a log record. The levels come in the order of their weight.
#[derive(Debug, Clone, Copy, PartialEq, Eq, Structural)]
pub enum Level {
    /// An error.
    Error,
    /// A warning.
    Warn,
    /// Information.
    Info,
    /// Details for a developer.
    Debug,
    /// All details.
    Trace,
}

impl Level {
    /// Whether a [`WarningLog`] keeps records of this level: warnings, and what weighs more.
    pub open spec fn is_kept(self) -> bool {
        self is Error || self is Warn
    }
}

/// Keeps the message of each record of the level [`Level::Warn`] or higher.
#[derive(Debug)]
pub struct WarningLog {
    warnings: Vec<String>,
}

impl View for WarningLog {
    type V = Seq<Seq<char>>;

    closed spec fn view(&self) -> Seq<Seq<char>> {
        text::texts(self.warnings@)
    }
}

/// The number of messages of `messages` that contain `part`.
pub open spec fn containing(messages: Seq<Seq<char>>, part: Seq<char>) -> nat
    decreases messages.len(),
{
    if messages.len() == 0 {
        0
    } else {
        containing(messages.drop_last(), part) + if text::is_substring(messages.last(), part) {
            1nat
        } else {
            0
        }
    }
}

impl WarningLog {
    /// Creates a log without warnings.
    pub fn new() -> (r: Self)
        ensures
            r@ == Seq::<Seq<char>>::empty(),
    {
        let r = WarningLog { warnings: Vec::new() };
        assert(r@ =~= Seq::empty());
        r
    }

    /// Tells if the log keeps records of the level `level`.
    pub fn enabled(level: Level) -> (r: bool)
        ensures
            r == level.is_kept(),
    {
        match level {
            Level::Error | Level::Warn => true,
            Level::Info | Level::Debug | Level::Trace => false,
        }
    }

    /// Takes a record with the message `message`.
    pub fn log(&mut self, level: Level, message: &str)
        ensures
            final(self)@ == if level.is_kept() {
                old(self)@.push(message@)
            } else {
                old(self)@
            },
    {
        if Self::enabled(level) {
            let message = owned(message);
            self.warnings.push(message);
            assert(self@ =~= old(self)@.push(message@));
        }
    }

    /// Gives the number of warnings whose message contains `part`.
    pub fn warnings_containing(&self, part: &str) -> (r: usize)
        ensures
            r == containing(self@, part@),
    {
        warnings_containing(&self.warnings, part)
    }
}

/// Gives the number of messages of `warnings` that contain `part`.
pub fn warnings_containing(warnings: &Vec<String>, part: &str) -> (r: usize)
    ensures
        r == containing(text::texts(warnings@), part@),
{
    let mut count: usize = 0;
    let n: usize = warnings.len();
    let ghost messages = text::texts(warnings@);
    assert(messages.take(0) =~= Seq::empty());
    for i in 0..n
        invariant
            n == warnings.len(),
            messages == text::texts(warnings@),
            count <= i,
            count == containing(messages.take(i as int), part@),
    {
        proof {
            let next = messages.take(i + 1);
            assert(next.drop_last() =~= messages.take(i as int));
            assert(next.last() == warnings@[i as int]@);
        }
        if contains(warnings[i].as_str(), part) {
            count = count + 1;
        }
    }
    assert(messages.take(n as int) =~= messages);
    count
}

/// Tells if a scenario can count the warnings.
///
/// # Arguments
///
/// * `installed` - Whether this process installed its logger
///
/// # Errors
///
/// * If the process already has another logger. Then the scenario cannot count the warnings, and it
///   must stop instead of giving a result that shows nothing.
pub fn capture_warnings(installed: bool) -> (r: Result<(), String>)
    ensures
        r is Ok <==> installed,
        r matches Err(message) ==> message@
            == "This process has another logger, so the scenario cannot count the warnings."@,
{
    if installed {
        Ok(())
    } else {
        Err(owned("This process has another logger, so the scenario cannot count the warnings."))
    }
}

/// The count of warnings with a text grows by one with each new warning that contains the text, and
/// only with such a warning.
pub proof fn law_count_follows_log(
    before: Seq<Seq<char>>,
    level: Level,
    message: Seq<char>,
    after: Seq<Seq<char>>,
    part: Seq<char>,
)
    requires
        after == if level.is_kept() {
            before.push(message)
        } else {
            before
        },
    ensures
        containing(after, part) == containing(before, part) + if level.is_kept()
            && text::is_substring(message, part) {
            1nat
        } else {
            0
        },
{
    if level.is_kept() {
        assert(after.drop_last() =~= before);
    }
}

/// A log keeps the message of each error and of each warning, after the messages before, and of no
/// other record.
pub proof fn law_log_keeps_warnings(log: &mut WarningLog, level: Level, message: &str, r: bool)
    requires
        call_ensures(WarningLog::log, (log, level, message), ()),
        call_ensures(WarningLog::enabled, (level,), r),
    ensures
        r <==> level == Level::Error || level == Level::Warn,
        level == Level::Error || level == Level::Warn ==> final(log)@ == old(log)@.push(message@),
        level == Level::Info || level == Level::Debug || level == Level::Trace ==> final(log)@
            == old(log)@,
{
}

/// The count of the warnings with a text is the number of the kept messages that are something, then
/// the text, then something.
pub proof fn law_count_has_the_text(log: WarningLog, part: &str, r: usize)
    requires
        call_ensures(WarningLog::warnings_containing, (&log, part), r),
    ensures
        r == log@.filter(
            |message: Seq<char>|
                exists|before: Seq<char>, after: Seq<char>|
                    message == #[trigger] ((before + part@) + after),
        ).len(),
{
    lemma_containing(log@, part@);
}

proof fn lemma_containing(messages: Seq<Seq<char>>, part: Seq<char>)
    ensures
        containing(messages, part) == messages.filter(
            |message: Seq<char>|
                exists|before: Seq<char>, after: Seq<char>|
                    message == #[trigger] ((before + part) + after),
        ).len(),
    decreases messages.len(),
{
    reveal(Seq::filter);
    if messages.len() > 0 {
        lemma_containing(messages.drop_last(), part);
        text::lemma_substring(messages.last(), part);
    }
}

/// A scenario can count the warnings exactly if this process installed its logger.
pub proof fn law_only_the_own_logger_counts(installed: bool, r: Result<(), String>)
    requires
        call_ensures(capture_warnings, (installed,), r),
    ensures
        r is Ok <==> installed,
{
}

} // verus!
