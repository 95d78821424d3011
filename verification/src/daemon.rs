//! Running a sync for as long as the system is up: one instance at a time,
//! again and again, whatever came of the last attempt.

use vstd::prelude::*;
use crate::logger::{LogEntry, LogView};
use crate::text::{cat3, cat4};

verus! {

/// Seconds between two attempts.
pub const POLL_INTERVAL: u64 = 120;

/// What came of opening a lock file and asking for an exclusive lock on it
/// without waiting. `T` is the file.
pub enum LockAttempt<T> {
    /// The file could not be opened.
    NotOpened(String),
    /// The lock was granted.
    Granted(T),
    /// The lock is held elsewhere.
    WouldBlock,
    /// The lock was refused for another reason.
    Refused(String),
}

/// A lock that is held for as long as its file is open.
pub struct Lock<T>(pub T);

/// The lock that an attempt gives. It is no error that another run holds it:
/// there is just no lock.
pub open spec fn taken<T>(attempt: LockAttempt<T>) -> Result<Option<Lock<T>>, String> {
    match attempt {
        LockAttempt::Granted(file) => Ok(Some(Lock(file))),
        LockAttempt::WouldBlock => Ok(None),
        LockAttempt::NotOpened(e) => Err(e),
        LockAttempt::Refused(e) => Err(e),
    }
}

impl<T> Lock<T> {
    /// Takes the lock. It is no error that another run holds it: there is just
    /// no lock, and the caller is to leave the work to that run.
    pub fn try_acquire(attempt: LockAttempt<T>) -> (r: Result<Option<Lock<T>>, String>)
        ensures
            r == taken(attempt),
    {
        match attempt {
            LockAttempt::Granted(file) => Ok(Some(Lock(file))),
            LockAttempt::WouldBlock => Ok(None),
            LockAttempt::NotOpened(e) => Err(e),
            LockAttempt::Refused(e) => Err(e),
        }
    }
}

/// How a program goes on once it has asked for its lock.
pub enum Start<T> {
    /// It runs, and keeps the lock.
    Run(Lock<T>),
    /// It ends well after logging this: another run does the work.
    Skip(LogEntry),
    /// It fails after logging this.
    Fail(LogEntry),
}

/// Whether a program goes on as it has to once it has asked for its lock.
pub open spec fn starts<T>(
    path: Seq<char>,
    lock: Result<Option<Lock<T>>, String>,
    start: Start<T>,
) -> bool {
    match lock {
        Ok(Some(held)) => start == Start::Run(held),
        Ok(None) => start matches Start::Skip(entry) && entry@ == LogView::Log(
            "another run is already in progress, skipping"@,
        ),
        Err(e) => start matches Start::Fail(entry) && entry@ == LogView::Error(
            "failed to acquire lock "@ + path + ": "@ + e@,
        ),
    }
}

/// Goes on once the lock has been asked for.
pub fn start<T>(path: &str, lock: Result<Option<Lock<T>>, String>) -> (r: Start<T>)
    ensures
        starts(path@, lock, r),
{
    match lock {
        Ok(Some(held)) => Start::Run(held),
        Ok(None) => Start::Skip(
            LogEntry::Log("another run is already in progress, skipping".to_owned()),
        ),
        Err(e) => Start::Fail(
            LogEntry::Error(cat4("failed to acquire lock ", path, ": ", e.as_str())),
        ),
    }
}

/// An error with what caused it.
pub open spec fn error_text(message: Seq<char>, cause: Option<Seq<char>>) -> Seq<char> {
    match cause {
        Some(c) => message + ": "@ + c,
        None => message,
    }
}

/// An error with what caused it.
pub fn describe(message: &str, cause: &Option<String>) -> (r: String)
    ensures
        r@ == error_text(
            message@,
            match *cause {
                Some(c) => Some(c@),
                None => None,
            },
        ),
{
    match cause {
        Some(c) => cat3(message, ": ", c.as_str()),
        None => message.to_owned(),
    }
}

/// What is left of an attempt: what to log, and what the status file is to
/// say. The status of a success is empty.
pub struct Report {
    pub log: Option<LogEntry>,
    pub status: String,
}

/// Reports an attempt. A failure is logged and kept as the status; the next
/// attempt follows either way.
pub fn report(outcome: &Result<(), String>) -> (r: Report)
    ensures
        match *outcome {
            Ok(_) => r.log is None && r.status@ == ""@,
            Err(e) => r.log is Some && r.log.unwrap()@ == LogView::Error(e@) && r.status@ == e@,
        },
{
    match outcome {
        Ok(_) => Report { log: None, status: "".to_owned() },
        Err(e) => Report { log: Some(LogEntry::Error(e.clone())), status: e.clone() },
    }
}

// ---------------------------------------------------------------------------
// Laws
// ---------------------------------------------------------------------------

/// What becomes of asking for an exclusive lock on a file that can be opened,
/// without waiting: it is granted unless it is held.
pub open spec fn asked<T>(held: bool, file: T) -> LockAttempt<T> {
    if held {
        LockAttempt::WouldBlock
    } else {
        LockAttempt::Granted(file)
    }
}

/// Something that is done with one lock file.
pub enum LockUse<T> {
    /// The lock is asked for with a file of one's own.
    Ask(T),
    /// The lock is released: the file it is held with is closed.
    Release,
}

/// Whether the lock is held after some uses of its file: it is if the last one
/// was to ask for it, since whoever asks gets it unless it is held already.
pub open spec fn held_after<T>(uses: Seq<LockUse<T>>) -> bool {
    uses.len() > 0 && uses.last() is Ask
}

/// How many locks have been taken in some uses of the file.
pub open spec fn locks_taken<T>(uses: Seq<LockUse<T>>) -> nat
    decreases uses.len(),
{
    if uses.len() == 0 {
        0
    } else {
        let before = locks_taken(uses.drop_last());
        match uses.last() {
            LockUse::Ask(file) => match taken(asked(held_after(uses.drop_last()), file)) {
                Ok(Some(_)) => before + 1,
                _ => before,
            },
            LockUse::Release => before,
        }
    }
}

/// How many locks have been released in some uses of the file. Only a lock
/// that is held can be.
pub open spec fn locks_released<T>(uses: Seq<LockUse<T>>) -> nat
    decreases uses.len(),
{
    if uses.len() == 0 {
        0
    } else {
        let before = locks_released(uses.drop_last());
        if uses.last() is Release && held_after(uses.drop_last()) {
            before + 1
        } else {
            before
        }
    }
}

/// However often the lock is asked for and released, no two hold it at once.
pub proof fn law_one_holder_at_a_time<T>(uses: Seq<LockUse<T>>)
    ensures
        locks_taken(uses) == locks_released(uses) + (if held_after(uses) {
            1nat
        } else {
            0nat
        }),
    decreases uses.len(),
{
    if uses.len() > 0 {
        law_one_holder_at_a_time(uses.drop_last());
    }
}

/// While a lock is held, asking again gives none and is no error; once it has
/// been released, asking gives one again.
pub proof fn law_lock_is_had_again_after_release<T>(uses: Seq<LockUse<T>>, file: T)
    ensures
        uses.len() > 0 && uses.last() is Ask ==> taken(asked(held_after(uses), file))
            == Ok::<Option<Lock<T>>, String>(None),
        taken(asked(held_after(uses.push(LockUse::Release)), file))
            == Ok::<Option<Lock<T>>, String>(Some(Lock(file))),
        taken(asked(held_after(Seq::<LockUse<T>>::empty()), file))
            == Ok::<Option<Lock<T>>, String>(Some(Lock(file))),
{
}

/// An attempt at the lock ends in one of three ways: the lock is held with the
/// very file that it was granted for, another run holds it, or the error says
/// why there is none.
pub proof fn law_attempts_are_told_apart<T>(file: T, why: String)
    ensures
        taken(LockAttempt::Granted(file)) == Ok::<Option<Lock<T>>, String>(Some(Lock(file))),
        taken::<T>(LockAttempt::WouldBlock) == Ok::<Option<Lock<T>>, String>(None),
        taken::<T>(LockAttempt::NotOpened(why)) == Err::<Option<Lock<T>>, String>(why),
        taken::<T>(LockAttempt::Refused(why)) == Err::<Option<Lock<T>>, String>(why),
{
}

/// A program does its work only with the lock it was given; it ends well
/// exactly where another run does the work, and it fails with the reason
/// otherwise.
pub proof fn law_only_the_holder_runs<T>(
    path: Seq<char>,
    lock: Result<Option<Lock<T>>, String>,
    start: Start<T>,
)
    requires
        starts(path, lock, start),
    ensures
        start is Run <==> lock is Ok && lock->Ok_0 is Some,
        start is Run ==> start->Run_0 == lock->Ok_0->0,
        start is Skip <==> lock is Ok && lock->Ok_0 is None,
        start is Skip ==> start->Skip_0@ == LogView::Log(
            "another run is already in progress, skipping"@,
        ),
        start is Fail <==> lock is Err,
        start is Fail ==> start->Fail_0@ == LogView::Error(
            "failed to acquire lock "@ + path + ": "@ + lock->Err_0@,
        ),
{
}

/// An error is told with its cause behind it, if it has one.
pub proof fn law_causes_are_told(message: Seq<char>, cause: Seq<char>)
    ensures
        error_text(message, Some(cause)) == message + ": "@ + cause,
        error_text(message, None) == message,
{
}

} // verus!
