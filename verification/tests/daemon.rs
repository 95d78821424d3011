use std::cell::RefCell;
use std::rc::Rc;

use frr_bootc::daemon::{describe, report, start, Lock, LockAttempt, Start, POLL_INTERVAL};
use frr_bootc::logger::{LogEntry, Logger};

/// Lock files, each of which one holder can have at a time.
#[derive(Clone, Default)]
struct LockFiles(Rc<RefCell<Vec<String>>>);

struct Held {
    files: LockFiles,
    path: String,
}

impl Drop for Held {
    fn drop(&mut self) {
        self.files.0.borrow_mut().retain(|p| *p != self.path);
    }
}

impl LockFiles {
    fn ask(&self, path: &str) -> LockAttempt<Held> {
        if self.0.borrow().iter().any(|p| p == path) {
            return LockAttempt::WouldBlock;
        }
        self.0.borrow_mut().push(path.to_string());
        LockAttempt::Granted(Held { files: self.clone(), path: path.to_string() })
    }
}

#[test]
fn lock_blocks_a_second_acquire_and_releases_on_drop() {
    let files = LockFiles::default();
    let path = "test.lock";

    let first = Lock::try_acquire(files.ask(path)).unwrap();
    assert!(first.is_some());
    assert!(Lock::try_acquire(files.ask(path)).unwrap().is_none());

    drop(first);
    assert!(Lock::try_acquire(files.ask(path)).unwrap().is_some());
}

#[test]
fn a_lock_that_is_held_elsewhere_leaves_the_work_to_that_run() {
    let lock = Lock::try_acquire(LockAttempt::Granted(7u8));
    assert!(matches!(start("/run/x.lock", lock), Start::Run(Lock(7))));
    let busy: LockAttempt<u8> = LockAttempt::WouldBlock;
    match start("/run/x.lock", Lock::try_acquire(busy)) {
        Start::Skip(LogEntry::Log(msg)) => {
            assert_eq!(msg, "another run is already in progress, skipping")
        }
        _ => panic!(),
    }
}

#[test]
fn a_lock_that_cannot_be_had_is_an_error() {
    for attempt in [LockAttempt::NotOpened("denied".to_string()), LockAttempt::Refused("denied".to_string())] {
        let lock: Result<Option<Lock<u8>>, String> = Lock::try_acquire(attempt);
        match start("/run/x.lock", lock) {
            Start::Fail(LogEntry::Error(msg)) => {
                assert_eq!(msg, "failed to acquire lock /run/x.lock: denied")
            }
            _ => panic!(),
        }
    }
}

#[test]
fn a_failed_attempt_is_logged_and_kept_as_the_status() {
    let r = report(&Err("rsync failed".to_string()));
    assert_eq!(r.status, "rsync failed");
    assert!(matches!(r.log, Some(LogEntry::Error(e)) if e == "rsync failed"));
    let r = report(&Ok(()));
    assert_eq!(r.status, "");
    assert!(r.log.is_none());
    assert_eq!(POLL_INTERVAL, 120);
}

#[test]
fn an_error_is_told_with_its_cause() {
    assert_eq!(describe("failed to spawn rsync", &Some("not found".to_string())), "failed to spawn rsync: not found");
    assert_eq!(describe("rsync failed", &None), "rsync failed");
}

#[test]
fn log_lines_start_with_the_prefix() {
    let log = Logger::new("frr-config-sync");
    assert_eq!(log.log("sync complete"), "frr-config-sync: sync complete");
    assert_eq!(log.err("rsync failed"), "frr-config-sync: ERROR: rsync failed");
    assert_eq!(
        log.block("a\nb\r\n\nc"),
        vec!["frr-config-sync:   a", "frr-config-sync:   b", "frr-config-sync:   ", "frr-config-sync:   c"]
    );
    assert_eq!(log.err_block("x\n"), vec!["frr-config-sync:   x"]);
    assert!(log.block("").is_empty());
}
