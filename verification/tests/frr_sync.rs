use frr_bootc::frr_sync::{
    sync, FrrAction, FrrEvent, StageFailure, StagedConfig, SyncFailure, FRR_RELOAD, MGMTD_SOCKET,
    STAGE_PREFIX,
};
use frr_bootc::logger::LogEntry;
use frr_bootc::process::CommandOutput;
use frr_bootc::validation::{connect_failed, read_failed, Validation, ValidationStep};
use frr_bootc::vty::{Reception, VtyExchange, VtyResponse};

const SRC: &str = "/run/config/frr";
const DST: &str = "/etc/frr";
const STAGED: &str = "/etc/frr.staged.abc";

/// A directory: names and contents.
type Dir = Vec<(&'static str, &'static str)>;

fn file(dir: &Dir, name: &str) -> Option<Vec<u8>> {
    dir.iter().find(|(n, _)| *n == name).map(|(_, c)| c.as_bytes().to_vec())
}

/// The programs that were run, and prepared outcomes of some of them.
struct FakeRunner {
    calls: Vec<(String, Vec<String>)>,
    responses: Vec<(String, Result<CommandOutput, String>)>,
}

impl FakeRunner {
    fn new() -> Self {
        FakeRunner { calls: Vec::new(), responses: Vec::new() }
    }

    fn on(mut self, cmd: &str, output: CommandOutput) -> Self {
        self.responses.push((cmd.to_string(), Ok(output)));
        self
    }

    fn missing(mut self, cmd: &str) -> Self {
        self.responses.push((cmd.to_string(), Err("not found".to_string())));
        self
    }

    fn calls(&self) -> Vec<String> {
        self.calls.iter().map(|(cmd, _)| cmd.clone()).collect()
    }

    fn run(&mut self, cmd: &str, args: &[String]) -> Result<CommandOutput, String> {
        self.calls.push((cmd.to_string(), args.to_vec()));
        if let Some(pos) = self.responses.iter().position(|(c, _)| c == cmd) {
            return self.responses.remove(pos).1;
        }
        Ok(ok_output(""))
    }
}

fn ok_output(stdout: &str) -> CommandOutput {
    CommandOutput { success: true, stdout: stdout.as_bytes().to_vec(), stderr: Vec::new() }
}

fn fail_output(stdout: &str) -> CommandOutput {
    CommandOutput { success: false, stdout: stdout.as_bytes().to_vec(), stderr: Vec::new() }
}

/// A daemon that accepts every command but one, and what it was sent.
struct FakeMgmtd {
    reject: Option<&'static str>,
    received: Vec<String>,
}

impl FakeMgmtd {
    fn new(reject: Option<&'static str>) -> Self {
        FakeMgmtd { reject, received: Vec::new() }
    }

    fn execute(&mut self, command: &str) -> Result<VtyResponse, String> {
        let (mut exchange, request) = VtyExchange::begin(command);
        let cmd = String::from_utf8(request[..request.len() - 1].to_vec()).unwrap();
        let ok = self.reject.map(|r| cmd != r).unwrap_or(true);
        self.received.push(cmd);
        match exchange.receive(&[0, 0, 0, if ok { 0 } else { 1 }]) {
            Reception::Done(resp) => Ok(resp),
            _ => panic!("no answer"),
        }
    }

    fn validate(&mut self, content: &str) -> Result<(), String> {
        let (mut validation, mut step) = Validation::begin(content);
        loop {
            match step {
                ValidationStep::Send(command) => {
                    let reply = self.execute(&command);
                    step = validation.answer(&reply);
                }
                ValidationStep::Finished(verdict) => return verdict,
            }
        }
    }
}

fn written(entry: &LogEntry) -> String {
    match entry {
        LogEntry::Log(s) => format!("log {s}"),
        LogEntry::Error(s) => format!("err {s}"),
        LogEntry::Block(s) => format!("block {s}"),
        LogEntry::ErrorBlock(s) => format!("err_block {s}"),
    }
}

fn run_sync(
    src: &Dir,
    dst: &Dir,
    mgmtd: &mut FakeMgmtd,
    runner: &mut FakeRunner,
) -> (Result<(), SyncFailure>, Vec<String>) {
    let (mut s, mut step) = sync(SRC, DST);
    let mut log = Vec::new();
    loop {
        log.extend(step.log.iter().map(written));
        let event = match step.action {
            FrrAction::ProbeSource => FrrEvent::Probed(Some(!src.is_empty())),
            FrrAction::ListSource => {
                FrrEvent::Listed(Ok(src.iter().map(|(n, _)| n.as_bytes().to_vec()).collect()))
            }
            FrrAction::ReadDaemons => FrrEvent::Daemons(file(src, "daemons"), file(dst, "daemons")),
            FrrAction::Stage => FrrEvent::Staged(Ok(StagedConfig {
                path: STAGED.to_string(),
                has_conf: file(src, "frr.conf").is_some(),
            })),
            FrrAction::Validate => {
                let conf = String::from_utf8(file(src, "frr.conf").unwrap()).unwrap();
                FrrEvent::Validated(mgmtd.validate(&conf))
            }
            FrrAction::Run(program, args) => FrrEvent::Ran(runner.run(program, &args)),
            FrrAction::Finish(outcome) => return (outcome, log),
        };
        assert!(s.expects(&event));
        step = s.advance(&event);
    }
}

#[test]
fn mod_empty_source_is_a_noop() {
    let mut runner = FakeRunner::new();
    let (result, log) = run_sync(&vec![], &vec![], &mut FakeMgmtd::new(None), &mut runner);
    assert!(result.is_ok());
    assert!(runner.calls().is_empty());
    assert_eq!(log, vec!["log /run/config/frr is empty or not mounted, nothing to sync"]);
}

#[test]
fn daemons_diff_triggers_restart_not_reload() {
    let mut runner = FakeRunner::new();
    let (result, log) = run_sync(
        &vec![("daemons", "bgpd=yes\n")],
        &vec![("daemons", "bgpd=no\n")],
        &mut FakeMgmtd::new(None),
        &mut runner,
    );
    assert!(result.is_ok());
    let calls = runner.calls();
    assert!(calls.contains(&"systemctl".to_string()));
    assert!(!calls.contains(&FRR_RELOAD.to_string()));
    assert_eq!(
        log,
        vec![
            "log starting sync from /run/config/frr (files: daemons)",
            "log daemons file differs from the currently running one - will restart frr.service, not reload",
            "log rsyncing staged config into /etc/frr",
            "log rsync complete, 0 file(s) changed",
            "log restarting frr.service",
            "log frr.service restarted successfully",
            "log sync complete",
        ]
    );
}

#[test]
fn matching_daemons_triggers_reload_not_restart() {
    let mut runner = FakeRunner::new();
    let (result, _) = run_sync(
        &vec![("daemons", "bgpd=yes\n")],
        &vec![("daemons", "bgpd=yes\n"), ("frr.conf", "")],
        &mut FakeMgmtd::new(None),
        &mut runner,
    );
    assert!(result.is_ok());
    let calls = runner.calls();
    assert!(calls.contains(&FRR_RELOAD.to_string()));
    assert!(!calls.contains(&"systemctl".to_string()));
}

#[test]
fn rsync_failure_aborts_before_any_reload_or_restart() {
    let mut runner = FakeRunner::new().on("rsync", fail_output(""));
    let (result, _) = run_sync(
        &vec![("daemons", "bgpd=yes\n")],
        &vec![],
        &mut FakeMgmtd::new(None),
        &mut runner,
    );
    assert!(result.is_err());
    let calls = runner.calls();
    assert!(!calls.contains(&"systemctl".to_string()));
    assert!(!calls.contains(&FRR_RELOAD.to_string()));
}

#[test]
fn reload_failure_falls_back_to_restart() {
    let mut runner = FakeRunner::new()
        .on(FRR_RELOAD, fail_output(""))
        .on("systemctl", ok_output(""));
    let (result, _) = run_sync(
        &vec![("daemons", "bgpd=yes\n")],
        &vec![("daemons", "bgpd=yes\n")],
        &mut FakeMgmtd::new(None),
        &mut runner,
    );
    assert!(result.is_ok());
    let calls = runner.calls();
    assert!(calls.contains(&FRR_RELOAD.to_string()));
    assert!(calls.contains(&"systemctl".to_string()));
}

#[test]
fn chown_failure_aborts_before_rsync() {
    let mut runner = FakeRunner::new().on("chown", fail_output(""));
    let (result, _) = run_sync(
        &vec![("daemons", "bgpd=yes\n")],
        &vec![],
        &mut FakeMgmtd::new(None),
        &mut runner,
    );
    assert!(result.is_err());
    assert!(!runner.calls().contains(&"rsync".to_string()));
}

#[test]
fn chmod_failure_aborts_before_rsync() {
    let mut runner = FakeRunner::new().on("chmod", fail_output(""));
    let (result, _) = run_sync(
        &vec![("daemons", "bgpd=yes\n")],
        &vec![],
        &mut FakeMgmtd::new(None),
        &mut runner,
    );
    assert!(result.is_err());
    assert_eq!(runner.calls(), vec!["chown", "chmod"]);
}

#[test]
fn validation_success_always_ends_with_abort() {
    let mut mgmtd = FakeMgmtd::new(None);
    let conf = "! comment\nrouter bgp 65001\n neighbor 10.0.0.1 remote-as 65002\n";
    assert!(mgmtd.validate(conf).is_ok());
    assert_eq!(
        mgmtd.received,
        vec![
            "enable",
            "configure terminal",
            "router bgp 65001",
            " neighbor 10.0.0.1 remote-as 65002",
            "abort",
        ]
    );
}

#[test]
fn validation_failure_reports_the_rejected_line_and_still_aborts() {
    let mut mgmtd = FakeMgmtd::new(Some("bogus line"));
    let err = mgmtd.validate("router bgp 65001\nbogus line\n").unwrap_err();
    assert!(err.contains("bogus line"));
    assert_eq!(mgmtd.received.last().unwrap(), "abort");
    assert_eq!(err, "line \"bogus line\" rejected: ");
}

#[test]
fn validation_failure_blocks_rsync_in_full_sync() {
    let mut runner = FakeRunner::new();
    let mut mgmtd = FakeMgmtd::new(Some("bogus line"));
    let (result, log) = run_sync(
        &vec![("daemons", "bgpd=yes\n"), ("frr.conf", "bogus line\n")],
        &vec![],
        &mut mgmtd,
        &mut runner,
    );
    let failure = result.unwrap_err();
    assert_eq!(failure.message, "frr.conf validation failed");
    assert_eq!(failure.cause, None);
    assert!(!runner.calls().contains(&"rsync".to_string()));
    assert!(runner.calls().is_empty());
    assert_eq!(
        &log[2..],
        [
            "log validating staged frr.conf (vty socket, mgmtd -C style check)",
            "err staged frr.conf failed validation, keeping the currently running config unchanged.",
            "err validation output:",
            "err_block line \"bogus line\" rejected: ",
        ]
    );
}

#[test]
fn the_programs_get_the_staged_copy_and_the_target() {
    let mut runner = FakeRunner::new();
    let (result, _) = run_sync(
        &vec![("daemons", "a"), ("frr.conf", "router bgp 1\n")],
        &vec![("daemons", "a")],
        &mut FakeMgmtd::new(None),
        &mut runner,
    );
    assert!(result.is_ok());
    let lines: Vec<String> = runner
        .calls
        .iter()
        .map(|(cmd, args)| format!("{cmd} {}", args.join(" ")))
        .collect();
    assert_eq!(
        lines,
        vec![
            "chown -R frr:frr /etc/frr.staged.abc",
            "chmod -R u=rwX,g=rX,o= /etc/frr.staged.abc",
            "rsync -avi --delete /etc/frr.staged.abc/ /etc/frr/",
            "/usr/libexec/frr/frr-reload.py --reload --stdout /etc/frr/frr.conf",
        ]
    );
    assert_eq!(MGMTD_SOCKET, "/var/run/frr/mgmtd.vty");
    assert_eq!(STAGE_PREFIX, "frr.staged.");
}

#[test]
fn changed_files_are_counted_and_shown() {
    let stdout = "sending incremental file list\n>f.st...... frr.conf\n.f          daemons\ncd+++++++++ x/\n*deleting   old\nhf a\n<f b\n\n";
    let mut runner = FakeRunner::new().on("rsync", ok_output(stdout));
    let (_, log) = run_sync(
        &vec![("daemons", "a")],
        &vec![("daemons", "a")],
        &mut FakeMgmtd::new(None),
        &mut runner,
    );
    assert!(log.contains(&"log rsync complete, 5 file(s) changed".to_string()));
    assert!(log.contains(
        &"block >f.st...... frr.conf\ncd+++++++++ x/\n*deleting   old\nhf a\n<f b".to_string()
    ));
}

#[test]
fn reload_output_is_logged_without_passwords() {
    let secret = "x\n neighbor 10.0.0.1 password s3cr3t\n";
    for reload in [ok_output(secret), fail_output(secret)] {
        let mut runner = FakeRunner::new().on(FRR_RELOAD, reload);
        let (result, log) = run_sync(
            &vec![("daemons", "a")],
            &vec![("daemons", "a")],
            &mut FakeMgmtd::new(None),
            &mut runner,
        );
        assert!(result.is_ok());
        let all = log.join("\n");
        assert!(all.contains("x\n neighbor 10.0.0.1 password <REDACTED>"));
        assert!(!all.contains("s3cr3t"));
    }
    let mut runner = FakeRunner::new().on(FRR_RELOAD, ok_output(" \n"));
    let (_, log) = run_sync(
        &vec![("daemons", "a")],
        &vec![("daemons", "a")],
        &mut FakeMgmtd::new(None),
        &mut runner,
    );
    assert!(!log.iter().any(|l| l.starts_with("block")));
}

#[test]
fn a_failed_restart_is_explained_by_the_journal() {
    let mut runner = FakeRunner::new()
        .on(FRR_RELOAD, fail_output("broken"))
        .on("systemctl", fail_output(""))
        .on("journalctl", ok_output("bgpd: boom\n"));
    let (result, log) = run_sync(
        &vec![("daemons", "a")],
        &vec![("daemons", "a")],
        &mut FakeMgmtd::new(None),
        &mut runner,
    );
    assert_eq!(result.unwrap_err().message, "systemctl restart frr.service failed");
    assert_eq!(
        runner.calls.last().unwrap().1.join(" "),
        "-u frr.service -n 50 --no-pager"
    );
    assert_eq!(
        &log[log.len() - 5..],
        [
            "err_block broken",
            "log falling back to systemctl restart frr.service",
            "log restarting frr.service (fallback)",
            "err fallback systemctl restart frr.service ALSO failed. Recent frr.service log:",
            "err_block bgpd: boom\n",
        ]
    );

    let mut runner = FakeRunner::new().on("systemctl", fail_output("")).missing("journalctl");
    let (result, log) = run_sync(
        &vec![("daemons", "a")],
        &vec![],
        &mut FakeMgmtd::new(None),
        &mut runner,
    );
    assert_eq!(result.unwrap_err().message, "systemctl restart frr.service failed");
    assert_eq!(
        log.last().unwrap(),
        "err systemctl restart frr.service failed. Recent frr.service log:"
    );
}

#[test]
fn each_program_that_cannot_be_started_is_named() {
    for (program, same, message) in [
        ("chown", true, "failed to spawn chown"),
        ("chmod", true, "failed to spawn chmod"),
        ("rsync", true, "failed to spawn rsync"),
        (FRR_RELOAD, true, "failed to spawn frr-reload.py"),
        ("systemctl", false, "failed to spawn systemctl restart frr.service"),
    ] {
        let mut runner = FakeRunner::new().missing(program);
        let dst: Dir = if same { vec![("daemons", "a")] } else { vec![] };
        let (result, _) = run_sync(
            &vec![("daemons", "a")],
            &dst,
            &mut FakeMgmtd::new(None),
            &mut runner,
        );
        let failure = result.unwrap_err();
        assert_eq!(failure.message, message);
        assert_eq!(failure.cause.as_deref(), Some("not found"));
    }
}

#[test]
fn failures_of_chown_chmod_and_rsync_are_told() {
    let failed = || CommandOutput { success: false, stdout: Vec::new(), stderr: b"denied\xff".to_vec() };
    for (program, message) in [
        ("chown", "chown -R frr:frr /etc/frr.staged.abc failed: denied\u{fffd}"),
        ("chmod", "chmod -R u=rwX,g=rX,o= /etc/frr.staged.abc failed: denied\u{fffd}"),
        ("rsync", "rsync failed"),
    ] {
        let mut runner = FakeRunner::new().on(program, failed());
        let (result, log) = run_sync(
            &vec![("daemons", "a")],
            &vec![],
            &mut FakeMgmtd::new(None),
            &mut runner,
        );
        let failure = result.unwrap_err();
        assert_eq!(failure.message, message);
        assert_eq!(failure.cause, None);
        if program == "rsync" {
            assert_eq!(
                &log[log.len() - 2..],
                ["err rsync into /etc/frr failed:", "err_block denied\u{fffd}"]
            );
        }
    }
}

#[test]
fn a_source_that_cannot_be_listed_or_staged_ends_the_sync() {
    let (mut s, _) = sync(SRC, DST);
    s.advance(&FrrEvent::Probed(Some(true)));
    let step = s.advance(&FrrEvent::Listed(Err("io".to_string())));
    match step.action {
        FrrAction::Finish(Err(f)) => {
            assert_eq!(f.message, "io");
            assert_eq!(f.cause, None);
        }
        _ => panic!(),
    }

    for (event, message) in [
        (
            FrrEvent::Staged(Err(StageFailure::Creating("io".to_string()))),
            "failed to create staging directory",
        ),
        (
            FrrEvent::Staged(Err(StageFailure::Copying("io".to_string()))),
            "failed to stage source config",
        ),
    ] {
        let (mut s, _) = sync(SRC, DST);
        s.advance(&FrrEvent::Probed(Some(true)));
        s.advance(&FrrEvent::Listed(Ok(vec![b"b".to_vec(), b"a".to_vec()])));
        s.advance(&FrrEvent::Daemons(None, None));
        let step = s.advance(&event);
        match step.action {
            FrrAction::Finish(Err(f)) => {
                assert_eq!(f.message, message);
                assert_eq!(f.cause.as_deref(), Some("io"));
            }
            _ => panic!(),
        }
        assert!(!s.expects(&event));
    }
}

#[test]
fn a_source_that_cannot_be_read_is_a_noop() {
    let (mut s, _) = sync(SRC, DST);
    let step = s.advance(&FrrEvent::Probed(None));
    assert!(matches!(step.action, FrrAction::Finish(Ok(()))));
}

#[test]
fn validation_reports_what_keeps_it_from_configuration_mode() {
    let mut mgmtd = FakeMgmtd::new(Some("enable"));
    assert_eq!(mgmtd.validate("x").unwrap_err(), "vty: enable failed: ");
    assert_eq!(mgmtd.received, vec!["enable"]);
    let mut mgmtd = FakeMgmtd::new(Some("configure terminal"));
    assert_eq!(mgmtd.validate("x").unwrap_err(), "vty: configure terminal failed: ");
    assert_eq!(mgmtd.received, vec!["enable", "configure terminal"]);

    let (mut v, _) = Validation::begin("x");
    let step = v.answer(&Err("broken pipe".to_string()));
    assert!(matches!(step, ValidationStep::Finished(Err(e)) if e == "vty: enable"));
    assert_eq!(read_failed("/x"), "failed to read /x");
    assert_eq!(connect_failed("/y"), "failed to connect to /y");
}

#[test]
fn validation_survives_a_broken_socket_and_still_aborts() {
    let fine = || Ok(VtyResponse { output: String::new(), status: 0 });
    let (mut v, _) = Validation::begin("a \"b\"\n\n # c\n  ! d\ne");
    v.answer(&fine());
    let step = v.answer(&fine());
    assert!(matches!(step, ValidationStep::Send(c) if c == "a \"b\""));
    let step = v.answer(&Err("broken pipe".to_string()));
    assert!(matches!(step, ValidationStep::Send(c) if c == "abort"));
    let step = v.answer(&Err("broken pipe".to_string()));
    match step {
        ValidationStep::Finished(Err(e)) => {
            assert_eq!(e, "line \"a \\\"b\\\"\": vty error: broken pipe")
        }
        _ => panic!(),
    }
}

#[test]
fn an_empty_configuration_is_aborted_right_away() {
    let mut mgmtd = FakeMgmtd::new(None);
    assert!(mgmtd.validate("! nothing\n").is_ok());
    assert_eq!(mgmtd.received, vec!["enable", "configure terminal", "abort"]);
}
