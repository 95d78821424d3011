//! Syncing FRR's configuration: from the mounted ConfigMap, through a staging
//! directory and a check, into `/etc/frr`, and then a reload or a restart.
//!
//! The sync decides one step at a time. Each step says what to log and what
//! to do; what came of it is handed back as an event.

use vstd::prelude::*;
use crate::logger::{lemma_log_push, log_views, LogEntry, LogView};
use crate::outside::{decodes, from_utf8_lossy, utf8_lossy};
use crate::process::CommandOutput;
use crate::redact::{redact_passwords, redacted};
use crate::source::{
    files_equal, is_empty_source, join_path, list_names, name_texts, names_decode, path_in,
    sorted_texts,
};
use crate::text::{
    cat, cat3, cat4, cat5, chars_of, decimal, join, join_of, lemma_texts_push, lines, lines_of,
    number, texts, trim, trim_of,
};

verus! {

/// The management daemon's vty socket. It owns the whole integrated
/// configuration.
pub const MGMTD_SOCKET: &'static str = "/var/run/frr/mgmtd.vty";

/// FRR's own tool to apply a changed configuration to running daemons.
pub const FRR_RELOAD: &'static str = "/usr/libexec/frr/frr-reload.py";

/// How the names of staging directories start.
pub const STAGE_PREFIX: &'static str = "frr.staged.";

/// How far a sync has come: what it waits for.
#[derive(Clone, Copy, PartialEq, Eq, Structural)]
pub enum Stage {
    /// Whether anything is mounted.
    Probing,
    /// The names of the mounted files.
    Listing,
    /// The mounted and the running list of daemons.
    Comparing,
    /// A copy of the mounted files.
    Staging,
    /// The check of the copied configuration.
    Validating,
    /// `chown` on the copy.
    Owning,
    /// `chmod` on the copy.
    Protecting,
    /// `rsync` of the copy.
    Copying,
    /// A reload of FRR.
    Reloading,
    /// A restart of FRR.
    Restarting,
    /// FRR's journal, after a restart failed.
    Explaining,
    /// Nothing any more.
    Done,
}

/// A copy of the mounted files: where it is, and whether it holds an
/// `frr.conf`.
pub struct StagedConfig {
    pub path: String,
    pub has_conf: bool,
}

/// Why there is no copy of the mounted files.
pub enum StageFailure {
    /// The staging directory could not be made.
    Creating(String),
    /// The files could not be copied.
    Copying(String),
}

/// What came of a step. Where something could not be done at all, the text of
/// the error is handed in.
pub enum FrrEvent {
    /// Whether the mounted directory has an entry; `None` if it cannot be
    /// read.
    Probed(Option<bool>),
    /// The names in the mounted directory.
    Listed(Result<Vec<Vec<u8>>, String>),
    /// The mounted and the running list of daemons, as far as they could be
    /// read.
    Daemons(Option<Vec<u8>>, Option<Vec<u8>>),
    /// The copy of the mounted files.
    Staged(Result<StagedConfig, StageFailure>),
    /// The verdict on the copied configuration.
    Validated(Result<(), String>),
    /// The outcome of a command.
    Ran(Result<CommandOutput, String>),
}

/// Why a sync failed.
pub struct SyncFailure {
    pub message: String,
    pub cause: Option<String>,
}

/// What to do next.
pub enum FrrAction {
    /// See whether the mounted directory has an entry.
    ProbeSource,
    /// List the mounted directory.
    ListSource,
    /// Read the `daemons` file of the mounted and of the running
    /// configuration.
    ReadDaemons,
    /// Copy the mounted files into a fresh directory beside the running
    /// configuration.
    Stage,
    /// Check the copied `frr.conf`.
    Validate,
    /// Run a command.
    Run(&'static str, Vec<String>),
    /// Stop.
    Finish(Result<(), SyncFailure>),
}

/// An action as a mathematical value.
pub enum ActionView {
    ProbeSource,
    ListSource,
    ReadDaemons,
    Stage,
    Validate,
    Run(Seq<char>, Seq<Seq<char>>),
    Finish(Option<FailureView>),
}

/// A failure as a mathematical value.
pub struct FailureView {
    pub message: Seq<char>,
    pub cause: Option<Seq<char>>,
}

impl View for SyncFailure {
    type V = FailureView;

    open spec fn view(&self) -> FailureView {
        FailureView {
            message: self.message@,
            cause: match self.cause {
                Some(s) => Some(s@),
                None => None,
            },
        }
    }
}

impl View for FrrAction {
    type V = ActionView;

    open spec fn view(&self) -> ActionView {
        match self {
            FrrAction::ProbeSource => ActionView::ProbeSource,
            FrrAction::ListSource => ActionView::ListSource,
            FrrAction::ReadDaemons => ActionView::ReadDaemons,
            FrrAction::Stage => ActionView::Stage,
            FrrAction::Validate => ActionView::Validate,
            FrrAction::Run(program, args) => ActionView::Run(program@, texts(args@)),
            FrrAction::Finish(r) => ActionView::Finish(
                match r {
                    Ok(_) => None,
                    Err(f) => Some(f@),
                },
            ),
        }
    }
}

/// One step: what to log, then what to do.
pub struct FrrStep {
    pub log: Vec<LogEntry>,
    pub action: FrrAction,
}

/// How far a sync has come, with what it has to remember.
pub struct Progress {
    pub stage: Stage,
    pub daemons_changed: bool,
    pub fallback: bool,
    pub staged: Seq<char>,
}

/// A step as a mathematical value, with where it leads.
pub struct Move {
    pub to: Progress,
    pub log: Seq<LogView>,
    pub action: ActionView,
}

/// Ends a sync with an error.
pub open spec fn fail(p: Progress, log: Seq<LogView>, f: FailureView) -> Move {
    Move {
        to: Progress { stage: Stage::Done, ..p },
        log,
        action: ActionView::Finish(Some(f)),
    }
}

/// Ends a sync with success.
pub open spec fn succeed(p: Progress, log: Seq<LogView>) -> Move {
    Move { to: Progress { stage: Stage::Done, ..p }, log, action: ActionView::Finish(None) }
}

/// An error of the sync's own.
pub open spec fn failure(message: Seq<char>) -> FailureView {
    FailureView { message, cause: None }
}

/// An error that something else caused.
pub open spec fn caused(message: Seq<char>, cause: Seq<char>) -> FailureView {
    FailureView { message, cause: Some(cause) }
}

/// The first step.
pub open spec fn first_move() -> Move {
    Move {
        to: Progress {
            stage: Stage::Probing,
            daemons_changed: false,
            fallback: false,
            staged: seq![],
        },
        log: seq![],
        action: ActionView::ProbeSource,
    }
}

/// Nothing happens when nothing is mounted.
pub open spec fn on_probed(src: Seq<char>, p: Progress, has_entry: Option<bool>) -> Move {
    if has_entry == Some(true) {
        Move {
            to: Progress { stage: Stage::Listing, ..p },
            log: seq![],
            action: ActionView::ListSource,
        }
    } else {
        succeed(p, seq![LogView::Log(src + " is empty or not mounted, nothing to sync"@)])
    }
}

/// The mounted files are logged by name.
pub open spec fn on_listed(
    src: Seq<char>,
    p: Progress,
    names: Result<Vec<Vec<u8>>, String>,
) -> Move {
    match names {
        Err(e) => fail(p, seq![], failure(e@)),
        Ok(v) => Move {
            to: Progress { stage: Stage::Comparing, ..p },
            log: seq![
                LogView::Log(
                    "starting sync from "@ + src + " (files: "@ + join_of(
                        sorted_texts(name_texts(v@)),
                        " "@,
                    ) + ")"@,
                ),
            ],
            action: ActionView::ReadDaemons,
        },
    }
}

/// Which daemons run is decided when FRR starts, so that a changed list takes
/// a restart.
pub open spec fn on_daemons(p: Progress, mounted: Option<Vec<u8>>, running: Option<Vec<u8>>) -> Move {
    let same = mounted is Some && running is Some && mounted.unwrap()@ == running.unwrap()@;
    Move {
        to: Progress { stage: Stage::Staging, daemons_changed: !same, ..p },
        log: if same {
            seq![]
        } else {
            seq![
                LogView::Log(
                    "daemons file differs from the currently running one - will restart frr.service, not reload"@,
                ),
            ]
        },
        action: ActionView::Stage,
    }
}

/// `chown` comes first once the copy is to be used.
pub open spec fn own(p: Progress, log: Seq<LogView>) -> Move {
    Move {
        to: Progress { stage: Stage::Owning, ..p },
        log,
        action: ActionView::Run("chown"@, seq!["-R"@, "frr:frr"@, p.staged]),
    }
}

/// A copied `frr.conf` is checked; without one there is nothing to check.
pub open spec fn on_staged(p: Progress, r: Result<StagedConfig, StageFailure>) -> Move {
    match r {
        Err(StageFailure::Creating(e)) => fail(
            p,
            seq![],
            caused("failed to create staging directory"@, e@),
        ),
        Err(StageFailure::Copying(e)) => fail(p, seq![], caused("failed to stage source config"@, e@)),
        Ok(c) => {
            let q = Progress { staged: c.path@, ..p };
            if c.has_conf {
                Move {
                    to: Progress { stage: Stage::Validating, ..q },
                    log: seq![
                        LogView::Log(
                            "validating staged frr.conf (vty socket, mgmtd -C style check)"@,
                        ),
                    ],
                    action: ActionView::Validate,
                }
            } else {
                own(q, seq![])
            }
        },
    }
}

/// A configuration that does not pass stops the sync before anything is
/// changed. What is wrong with it is logged after the lines in it that set a
/// peer's password have been redacted.
pub open spec fn on_validated(p: Progress, r: Result<(), String>) -> Move {
    match r {
        Err(e) => fail(
            p,
            seq![
                LogView::Error(
                    "staged frr.conf failed validation, keeping the currently running config unchanged."@,
                ),
                LogView::Error("validation output:"@),
                LogView::ErrorBlock(redacted(e@)),
            ],
            failure("frr.conf validation failed"@),
        ),
        Ok(_) => own(p, seq![LogView::Log("validation passed"@)]),
    }
}

/// `chmod` after `chown`.
pub open spec fn on_owned(p: Progress, r: Result<CommandOutput, String>) -> Move {
    match r {
        Err(e) => fail(p, seq![], caused("failed to spawn chown"@, e@)),
        Ok(out) => if out.success {
            Move {
                to: Progress { stage: Stage::Protecting, ..p },
                log: seq![],
                action: ActionView::Run("chmod"@, seq!["-R"@, "u=rwX,g=rX,o="@, p.staged]),
            }
        } else {
            fail(
                p,
                seq![],
                failure(
                    "chown -R frr:frr "@ + p.staged + " failed: "@ + utf8_lossy(out.stderr@),
                ),
            )
        },
    }
}

/// `rsync` after `chmod`.
pub open spec fn on_protected(dst: Seq<char>, p: Progress, r: Result<CommandOutput, String>) -> Move {
    match r {
        Err(e) => fail(p, seq![], caused("failed to spawn chmod"@, e@)),
        Ok(out) => if out.success {
            Move {
                to: Progress { stage: Stage::Copying, ..p },
                log: seq![LogView::Log("rsyncing staged config into "@ + dst)],
                action: ActionView::Run(
                    "rsync"@,
                    seq!["-avi"@, "--delete"@, p.staged + "/"@, dst + "/"@],
                ),
            }
        } else {
            fail(
                p,
                seq![],
                failure(
                    "chmod -R u=rwX,g=rX,o= "@ + p.staged + " failed: "@ + utf8_lossy(out.stderr@),
                ),
            )
        },
    }
}

/// Whether a line of `rsync -i` tells of a changed file: its first character
/// is one of `<`, `>`, `c`, `h` and `*`.
pub open spec fn is_change(line: Seq<char>) -> bool {
    line.len() > 0 && (line[0] == '<' || line[0] == '>' || line[0] == 'c' || line[0] == 'h'
        || line[0] == '*')
}

/// The lines that tell of changed files.
pub open spec fn changes_in(lines: Seq<Seq<char>>) -> Seq<Seq<char>>
    decreases lines.len(),
{
    if lines.len() == 0 {
        seq![]
    } else if is_change(lines.last()) {
        changes_in(lines.drop_last()).push(lines.last())
    } else {
        changes_in(lines.drop_last())
    }
}

/// What is logged of a successful `rsync`.
pub open spec fn copied_log(output: Seq<char>) -> Seq<LogView> {
    let changed = changes_in(lines_of(output));
    let first = LogView::Log(
        "rsync complete, "@ + decimal(changed.len()) + " file(s) changed"@,
    );
    if changed.len() > 0 {
        seq![first, LogView::Block(join_of(changed, "\n"@))]
    } else {
        seq![first]
    }
}

/// Restarts FRR.
pub open spec fn restart(p: Progress, log: Seq<LogView>, fallback: bool) -> Move {
    Move {
        to: Progress { stage: Stage::Restarting, fallback, ..p },
        log: log.push(
            LogView::Log(
                if fallback {
                    "restarting frr.service (fallback)"@
                } else {
                    "restarting frr.service"@
                },
            ),
        ),
        action: ActionView::Run("systemctl"@, seq!["restart"@, "frr.service"@]),
    }
}

/// Reloads FRR.
pub open spec fn reload(dst: Seq<char>, p: Progress, log: Seq<LogView>) -> Move {
    Move {
        to: Progress { stage: Stage::Reloading, ..p },
        log: log.push(LogView::Log("reloading frr configuration (frr-reload.py --reload)"@)),
        action: ActionView::Run(
            FRR_RELOAD@,
            seq!["--reload"@, "--stdout"@, path_in(dst, "frr.conf"@)],
        ),
    }
}

/// After `rsync`, a changed list of daemons takes a restart, everything else
/// a reload.
pub open spec fn on_copied(dst: Seq<char>, p: Progress, r: Result<CommandOutput, String>) -> Move {
    match r {
        Err(e) => fail(p, seq![], caused("failed to spawn rsync"@, e@)),
        Ok(out) => if out.success {
            let log = copied_log(utf8_lossy(out.stdout@));
            if p.daemons_changed {
                restart(p, log, false)
            } else {
                reload(dst, p, log)
            }
        } else {
            fail(
                p,
                seq![
                    LogView::Error("rsync into "@ + dst + " failed:"@),
                    LogView::ErrorBlock(utf8_lossy(out.stderr@)),
                ],
                failure("rsync failed"@),
            )
        },
    }
}

/// What follows a reload that ran: the end, or a restart if it failed. The
/// output is logged after the lines in it that set a peer's password have been
/// redacted.
pub open spec fn reloaded(p: Progress, success: bool, output: Seq<char>) -> Move {
    if success {
        let first = seq![LogView::Log("frr-reload.py succeeded"@)];
        let shown = if trim_of(output).len() > 0 {
            first.push(LogView::Block(redacted(output)))
        } else {
            first
        };
        succeed(p, shown.push(LogView::Log("sync complete"@)))
    } else {
        restart(
            p,
            seq![
                LogView::Error("frr-reload.py failed, full output:"@),
                LogView::ErrorBlock(redacted(output)),
                LogView::Log("falling back to systemctl restart frr.service"@),
            ],
            true,
        )
    }
}

/// A reload that fails falls back to a restart.
pub open spec fn on_reloaded(p: Progress, r: Result<CommandOutput, String>) -> Move {
    match r {
        Err(e) => fail(p, seq![], caused("failed to spawn frr-reload.py"@, e@)),
        Ok(out) => reloaded(p, out.success, utf8_lossy(out.stdout@)),
    }
}

/// A restart that fails is explained by FRR's journal.
pub open spec fn on_restarted(p: Progress, r: Result<CommandOutput, String>) -> Move {
    match r {
        Err(e) => fail(p, seq![], caused("failed to spawn systemctl restart frr.service"@, e@)),
        Ok(out) => if out.success {
            succeed(
                p,
                seq![
                    LogView::Log(
                        if p.fallback {
                            "frr.service restarted successfully (fallback)"@
                        } else {
                            "frr.service restarted successfully"@
                        },
                    ),
                    LogView::Log("sync complete"@),
                ],
            )
        } else {
            Move {
                to: Progress { stage: Stage::Explaining, ..p },
                log: seq![
                    LogView::Error(
                        if p.fallback {
                            "fallback systemctl restart frr.service ALSO failed. Recent frr.service log:"@
                        } else {
                            "systemctl restart frr.service failed. Recent frr.service log:"@
                        },
                    ),
                ],
                action: ActionView::Run(
                    "journalctl"@,
                    seq!["-u"@, "frr.service"@, "-n"@, "50"@, "--no-pager"@],
                ),
            }
        },
    }
}

/// The journal is logged if it could be had, and the sync has failed either
/// way.
pub open spec fn on_explained(p: Progress, r: Result<CommandOutput, String>) -> Move {
    fail(
        p,
        match r {
            Ok(out) => seq![LogView::ErrorBlock(utf8_lossy(out.stdout@))],
            Err(_) => seq![],
        },
        failure("systemctl restart frr.service failed"@),
    )
}

/// The events that a stage waits for.
pub open spec fn awaits(stage: Stage, e: FrrEvent) -> bool {
    match stage {
        Stage::Probing => e is Probed,
        Stage::Listing => e is Listed,
        Stage::Comparing => e is Daemons,
        Stage::Staging => e is Staged,
        Stage::Validating => e is Validated,
        Stage::Done => false,
        _ => e is Ran,
    }
}

/// The step that an event leads to.
pub open spec fn move_on(src: Seq<char>, dst: Seq<char>, p: Progress, e: FrrEvent) -> Move {
    match e {
        FrrEvent::Probed(has_entry) => on_probed(src, p, has_entry),
        FrrEvent::Listed(r) => on_listed(src, p, r),
        FrrEvent::Daemons(mounted, running) => on_daemons(p, mounted, running),
        FrrEvent::Staged(r) => on_staged(p, r),
        FrrEvent::Validated(r) => on_validated(p, r),
        FrrEvent::Ran(r) => match p.stage {
            Stage::Owning => on_owned(p, r),
            Stage::Protecting => on_protected(dst, p, r),
            Stage::Copying => on_copied(dst, p, r),
            Stage::Reloading => on_reloaded(p, r),
            Stage::Restarting => on_restarted(p, r),
            _ => on_explained(p, r),
        },
    }
}

/// The bytes of a command's output that are made text.
pub open spec fn told(stage: Stage, out: CommandOutput) -> Option<Seq<u8>> {
    match stage {
        Stage::Owning | Stage::Protecting => if out.success {
            None
        } else {
            Some(out.stderr@)
        },
        Stage::Copying => if out.success {
            Some(out.stdout@)
        } else {
            Some(out.stderr@)
        },
        Stage::Reloading | Stage::Explaining => Some(out.stdout@),
        _ => None,
    }
}

/// Whether the output of a command, if it is UTF-8, is made the text that it
/// encodes.
pub open spec fn ran_decodes(stage: Stage, r: Result<CommandOutput, String>) -> bool {
    match r {
        Ok(out) => match told(stage, out) {
            Some(bytes) => decodes(bytes),
            None => true,
        },
        Err(_) => true,
    }
}

/// Whether what an event brings as bytes, if it is UTF-8, is made the text
/// that it encodes.
pub open spec fn event_decodes(stage: Stage, e: FrrEvent) -> bool {
    match e {
        FrrEvent::Listed(Ok(names)) => names_decode(names@),
        FrrEvent::Ran(r) => ran_decodes(stage, r),
        _ => true,
    }
}

/// A step says what a move says.
pub open spec fn shows(step: FrrStep, m: Move) -> bool {
    log_views(step.log@) == m.log && step.action@ == m.action
}

/// One sync.
pub struct FrrSync {
    src: String,
    dst: String,
    stage: Stage,
    daemons_changed: bool,
    fallback: bool,
    staged: String,
}

impl View for FrrSync {
    type V = Progress;

    closed spec fn view(&self) -> Progress {
        Progress {
            stage: self.stage,
            daemons_changed: self.daemons_changed,
            fallback: self.fallback,
            staged: self.staged@,
        }
    }
}

/// Starts syncing FRR's configuration from `src` into `dst`.
pub fn sync(src: &str, dst: &str) -> (r: (FrrSync, FrrStep))
    ensures
        r.0.source() == src@,
        r.0.target() == dst@,
        r.0@ == first_move().to,
        shows(r.1, first_move()),
{
    let s = FrrSync {
        src: src.to_owned(),
        dst: dst.to_owned(),
        stage: Stage::Probing,
        daemons_changed: false,
        fallback: false,
        staged: String::new(),
    };
    let log: Vec<LogEntry> = Vec::new();
    proof {
        assert(s.staged@ =~= seq![]);
        assert(log_views(log@) =~= seq![]);
    }
    (s, FrrStep { log, action: FrrAction::ProbeSource })
}

/// An error with its cause, if something else caused it.
fn failed(message: String, cause: Option<&String>) -> (r: FrrAction)
    ensures
        r@ == ActionView::Finish(
            Some(
                FailureView {
                    message: message@,
                    cause: match cause {
                        Some(s) => Some(s@),
                        None => None,
                    },
                },
            ),
        ),
{
    let cause = match cause {
        Some(s) => Some(s.clone()),
        None => None,
    };
    FrrAction::Finish(Err(SyncFailure { message, cause }))
}

/// The lines that tell of changed files.
fn changes(output: &str) -> (r: Vec<String>)
    ensures
        texts(r@) == changes_in(lines_of(output@)),
{
    let all = lines(output);
    let mut out: Vec<String> = Vec::new();
    let mut i: usize = 0;
    proof {
        assert(texts(out@) =~= changes_in(texts(all@).take(0)));
    }
    while i < all.len()
        invariant
            i <= all.len(),
            texts(out@) == changes_in(texts(all@).take(i as int)),
        decreases all.len() - i,
    {
        let chars = chars_of(all[i].as_str());
        let c = chars.len() > 0 && (chars[0] == '<' || chars[0] == '>' || chars[0] == 'c'
            || chars[0] == 'h' || chars[0] == '*');
        proof {
            let t = texts(all@).take(i + 1);
            assert(t.drop_last() =~= texts(all@).take(i as int));
            assert(t.last() == all@[i as int]@);
        }
        if c {
            let line = all[i].clone();
            proof {
                lemma_texts_push(out@, line);
            }
            out.push(line);
        }
        i += 1;
    }
    proof {
        assert(texts(all@).take(i as int) =~= texts(all@));
    }
    out
}

impl FrrSync {
    /// Where the configuration comes from.
    pub closed spec fn source(self) -> Seq<char> {
        self.src@
    }

    /// Where the configuration goes.
    pub closed spec fn target(self) -> Seq<char> {
        self.dst@
    }

    fn chown_and_chmod(&mut self, log: Vec<LogEntry>) -> (r: FrrStep)
        ensures
            final(self).source() == old(self).source(),
            final(self).target() == old(self).target(),
            final(self)@ == own(old(self)@, log_views(log@)).to,
            shows(r, own(old(self)@, log_views(log@))),
    {
        self.stage = Stage::Owning;
        let args = vec!["-R".to_owned(), "frr:frr".to_owned(), self.staged.clone()];
        proof {
            assert(texts(args@) =~= seq!["-R"@, "frr:frr"@, self.staged@]);
        }
        FrrStep { log, action: FrrAction::Run("chown", args) }
    }

    fn restart_frr(&mut self, log: Vec<LogEntry>, fallback: bool) -> (r: FrrStep)
        ensures
            final(self).source() == old(self).source(),
            final(self).target() == old(self).target(),
            final(self)@ == restart(old(self)@, log_views(log@), fallback).to,
            shows(r, restart(old(self)@, log_views(log@), fallback)),
    {
        self.stage = Stage::Restarting;
        self.fallback = fallback;
        let mut log = log;
        let msg = if fallback {
            "restarting frr.service (fallback)".to_owned()
        } else {
            "restarting frr.service".to_owned()
        };
        let entry = LogEntry::Log(msg);
        proof {
            lemma_log_push(log@, entry);
        }
        log.push(entry);
        let args = vec!["restart".to_owned(), "frr.service".to_owned()];
        proof {
            assert(texts(args@) =~= seq!["restart"@, "frr.service"@]);
        }
        FrrStep { log, action: FrrAction::Run("systemctl", args) }
    }

    fn reload_frr(&mut self, log: Vec<LogEntry>) -> (r: FrrStep)
        ensures
            final(self).source() == old(self).source(),
            final(self).target() == old(self).target(),
            final(self)@ == reload(old(self).target(), old(self)@, log_views(log@)).to,
            shows(r, reload(old(self).target(), old(self)@, log_views(log@))),
    {
        self.stage = Stage::Reloading;
        let mut log = log;
        let entry = LogEntry::Log(
            "reloading frr configuration (frr-reload.py --reload)".to_owned(),
        );
        proof {
            lemma_log_push(log@, entry);
        }
        log.push(entry);
        let args = vec![
            "--reload".to_owned(),
            "--stdout".to_owned(),
            join_path(self.dst.as_str(), "frr.conf"),
        ];
        proof {
            assert(texts(args@) =~= seq![
                "--reload"@,
                "--stdout"@,
                path_in(self.dst@, "frr.conf"@),
            ]);
        }
        FrrStep { log, action: FrrAction::Run(FRR_RELOAD, args) }
    }

    fn probed(&mut self, has_entry: Option<bool>) -> (r: FrrStep)
        ensures
            final(self).source() == old(self).source(),
            final(self).target() == old(self).target(),
            final(self)@ == on_probed(old(self).source(), old(self)@, has_entry).to,
            shows(r, on_probed(old(self).source(), old(self)@, has_entry)),
    {
        if is_empty_source(has_entry) {
            self.stage = Stage::Done;
            let log = vec![
                LogEntry::Log(
                    cat(self.src.as_str(), " is empty or not mounted, nothing to sync"),
                ),
            ];
            proof {
                assert(log_views(log@) =~= on_probed(
                    old(self).source(),
                    old(self)@,
                    has_entry,
                ).log);
            }
            FrrStep { log, action: FrrAction::Finish(Ok(())) }
        } else {
            self.stage = Stage::Listing;
            let log: Vec<LogEntry> = Vec::new();
            proof {
                assert(log_views(log@) =~= seq![]);
            }
            FrrStep { log, action: FrrAction::ListSource }
        }
    }

    fn listed(&mut self, names: &Result<Vec<Vec<u8>>, String>) -> (r: FrrStep)
        ensures
            final(self).source() == old(self).source(),
            final(self).target() == old(self).target(),
            final(self)@ == on_listed(old(self).source(), old(self)@, *names).to,
            shows(r, on_listed(old(self).source(), old(self)@, *names)),
            match *names {
                Ok(v) => names_decode(v@),
                Err(_) => true,
            },
    {
        match names {
            Err(e) => {
                self.stage = Stage::Done;
                let log: Vec<LogEntry> = Vec::new();
                proof {
                    assert(log_views(log@) =~= seq![]);
                }
                FrrStep { log, action: failed(e.clone(), None) }
            },
            Ok(v) => {
                self.stage = Stage::Comparing;
                let files = join(&list_names(v), " ");
                let log = vec![
                    LogEntry::Log(
                        cat5(
                            "starting sync from ",
                            self.src.as_str(),
                            " (files: ",
                            files.as_str(),
                            ")",
                        ),
                    ),
                ];
                proof {
                    assert(log_views(log@) =~= on_listed(
                        old(self).source(),
                        old(self)@,
                        *names,
                    ).log);
                }
                FrrStep { log, action: FrrAction::ReadDaemons }
            },
        }
    }

    fn compared(&mut self, mounted: &Option<Vec<u8>>, running: &Option<Vec<u8>>) -> (r: FrrStep)
        ensures
            final(self).source() == old(self).source(),
            final(self).target() == old(self).target(),
            final(self)@ == on_daemons(old(self)@, *mounted, *running).to,
            shows(r, on_daemons(old(self)@, *mounted, *running)),
    {
        self.stage = Stage::Staging;
        self.daemons_changed = !files_equal(mounted, running);
        let mut log: Vec<LogEntry> = Vec::new();
        if self.daemons_changed {
            log.push(
                LogEntry::Log(
                    "daemons file differs from the currently running one - will restart frr.service, not reload".to_owned(),
                ),
            );
        }
        proof {
            assert(log_views(log@) =~= on_daemons(old(self)@, *mounted, *running).log);
        }
        FrrStep { log, action: FrrAction::Stage }
    }

    fn copied_to_stage(&mut self, staged: &Result<StagedConfig, StageFailure>) -> (r: FrrStep)
        ensures
            final(self).source() == old(self).source(),
            final(self).target() == old(self).target(),
            final(self)@ == on_staged(old(self)@, *staged).to,
            shows(r, on_staged(old(self)@, *staged)),
    {
        let mut log: Vec<LogEntry> = Vec::new();
        proof {
            assert(log_views(log@) =~= seq![]);
        }
        match staged {
            Err(StageFailure::Creating(e)) => {
                self.stage = Stage::Done;
                let action = failed("failed to create staging directory".to_owned(), Some(e));
                FrrStep { log, action }
            },
            Err(StageFailure::Copying(e)) => {
                self.stage = Stage::Done;
                let action = failed("failed to stage source config".to_owned(), Some(e));
                FrrStep { log, action }
            },
            Ok(c) => {
                self.staged = c.path.clone();
                if c.has_conf {
                    self.stage = Stage::Validating;
                    log.push(
                        LogEntry::Log(
                            "validating staged frr.conf (vty socket, mgmtd -C style check)".to_owned(),
                        ),
                    );
                    proof {
                        assert(log_views(log@) =~= on_staged(old(self)@, *staged).log);
                    }
                    FrrStep { log, action: FrrAction::Validate }
                } else {
                    self.chown_and_chmod(log)
                }
            },
        }
    }

    fn validated(&mut self, verdict: &Result<(), String>) -> (r: FrrStep)
        ensures
            final(self).source() == old(self).source(),
            final(self).target() == old(self).target(),
            final(self)@ == on_validated(old(self)@, *verdict).to,
            shows(r, on_validated(old(self)@, *verdict)),
    {
        let mut log: Vec<LogEntry> = Vec::new();
        match verdict {
            Err(e) => {
                self.stage = Stage::Done;
                log.push(
                    LogEntry::Error(
                        "staged frr.conf failed validation, keeping the currently running config unchanged.".to_owned(),
                    ),
                );
                log.push(LogEntry::Error("validation output:".to_owned()));
                log.push(LogEntry::ErrorBlock(redact_passwords(e.as_str())));
                proof {
                    assert(log_views(log@) =~= on_validated(old(self)@, *verdict).log);
                }
                let action = failed("frr.conf validation failed".to_owned(), None);
                FrrStep { log, action }
            },
            Ok(_) => {
                log.push(LogEntry::Log("validation passed".to_owned()));
                proof {
                    assert(log_views(log@) =~= on_validated(old(self)@, *verdict).log);
                }
                self.chown_and_chmod(log)
            },
        }
    }

    fn owned(&mut self, ran: &Result<CommandOutput, String>) -> (r: FrrStep)
        ensures
            final(self).source() == old(self).source(),
            final(self).target() == old(self).target(),
            final(self)@ == on_owned(old(self)@, *ran).to,
            shows(r, on_owned(old(self)@, *ran)),
            ran_decodes(Stage::Owning, *ran),
    {
        let log: Vec<LogEntry> = Vec::new();
        proof {
            assert(log_views(log@) =~= seq![]);
        }
        match ran {
            Err(e) => {
                self.stage = Stage::Done;
                FrrStep { log, action: failed("failed to spawn chown".to_owned(), Some(e)) }
            },
            Ok(out) => if out.success {
                self.stage = Stage::Protecting;
                let args = vec!["-R".to_owned(), "u=rwX,g=rX,o=".to_owned(), self.staged.clone()];
                proof {
                    assert(texts(args@) =~= seq!["-R"@, "u=rwX,g=rX,o="@, self.staged@]);
                }
                FrrStep { log, action: FrrAction::Run("chmod", args) }
            } else {
                self.stage = Stage::Done;
                let why = from_utf8_lossy(out.stderr.as_slice());
                let msg = cat4(
                    "chown -R frr:frr ",
                    self.staged.as_str(),
                    " failed: ",
                    why.as_str(),
                );
                FrrStep { log, action: failed(msg, None) }
            },
        }
    }

    fn protected(&mut self, ran: &Result<CommandOutput, String>) -> (r: FrrStep)
        ensures
            final(self).source() == old(self).source(),
            final(self).target() == old(self).target(),
            final(self)@ == on_protected(old(self).target(), old(self)@, *ran).to,
            shows(r, on_protected(old(self).target(), old(self)@, *ran)),
            ran_decodes(Stage::Protecting, *ran),
    {
        let mut log: Vec<LogEntry> = Vec::new();
        proof {
            assert(log_views(log@) =~= seq![]);
        }
        match ran {
            Err(e) => {
                self.stage = Stage::Done;
                FrrStep { log, action: failed("failed to spawn chmod".to_owned(), Some(e)) }
            },
            Ok(out) => if out.success {
                self.stage = Stage::Copying;
                log.push(LogEntry::Log(cat("rsyncing staged config into ", self.dst.as_str())));
                let args = vec![
                    "-avi".to_owned(),
                    "--delete".to_owned(),
                    cat(self.staged.as_str(), "/"),
                    cat(self.dst.as_str(), "/"),
                ];
                proof {
                    assert(log_views(log@) =~= seq![
                        LogView::Log("rsyncing staged config into "@ + self.dst@),
                    ]);
                    assert(texts(args@) =~= seq![
                        "-avi"@,
                        "--delete"@,
                        self.staged@ + "/"@,
                        self.dst@ + "/"@,
                    ]);
                }
                FrrStep { log, action: FrrAction::Run("rsync", args) }
            } else {
                self.stage = Stage::Done;
                let why = from_utf8_lossy(out.stderr.as_slice());
                let msg = cat4(
                    "chmod -R u=rwX,g=rX,o= ",
                    self.staged.as_str(),
                    " failed: ",
                    why.as_str(),
                );
                FrrStep { log, action: failed(msg, None) }
            },
        }
    }

    fn copied(&mut self, ran: &Result<CommandOutput, String>) -> (r: FrrStep)
        ensures
            final(self).source() == old(self).source(),
            final(self).target() == old(self).target(),
            final(self)@ == on_copied(old(self).target(), old(self)@, *ran).to,
            shows(r, on_copied(old(self).target(), old(self)@, *ran)),
            ran_decodes(Stage::Copying, *ran),
    {
        let mut log: Vec<LogEntry> = Vec::new();
        match ran {
            Err(e) => {
                self.stage = Stage::Done;
                proof {
                    assert(log_views(log@) =~= seq![]);
                }
                FrrStep { log, action: failed("failed to spawn rsync".to_owned(), Some(e)) }
            },
            Ok(out) => if out.success {
                let text = from_utf8_lossy(out.stdout.as_slice());
                let changed = changes(text.as_str());
                let n = number(changed.len() as u128);
                log.push(
                    LogEntry::Log(cat3("rsync complete, ", n.as_str(), " file(s) changed")),
                );
                if changed.len() > 0 {
                    log.push(LogEntry::Block(join(&changed, "\n")));
                }
                proof {
                    assert(log_views(log@) =~= copied_log(text@));
                }
                if self.daemons_changed {
                    self.restart_frr(log, false)
                } else {
                    self.reload_frr(log)
                }
            } else {
                self.stage = Stage::Done;
                log.push(
                    LogEntry::Error(cat3("rsync into ", self.dst.as_str(), " failed:")),
                );
                log.push(LogEntry::ErrorBlock(from_utf8_lossy(out.stderr.as_slice())));
                proof {
                    assert(log_views(log@) =~= on_copied(old(self).target(), old(self)@, *ran).log);
                }
                FrrStep { log, action: failed("rsync failed".to_owned(), None) }
            },
        }
    }

    fn reloaded(&mut self, ran: &Result<CommandOutput, String>) -> (r: FrrStep)
        ensures
            final(self).source() == old(self).source(),
            final(self).target() == old(self).target(),
            final(self)@ == on_reloaded(old(self)@, *ran).to,
            shows(r, on_reloaded(old(self)@, *ran)),
            ran_decodes(Stage::Reloading, *ran),
    {
        let mut log: Vec<LogEntry> = Vec::new();
        match ran {
            Err(e) => {
                self.stage = Stage::Done;
                proof {
                    assert(log_views(log@) =~= seq![]);
                }
                FrrStep { log, action: failed("failed to spawn frr-reload.py".to_owned(), Some(e)) }
            },
            Ok(out) => {
                let text = from_utf8_lossy(out.stdout.as_slice());
                if out.success {
                    self.stage = Stage::Done;
                    log.push(LogEntry::Log("frr-reload.py succeeded".to_owned()));
                    if trim(text.as_str()).unicode_len() > 0 {
                        log.push(LogEntry::Block(redact_passwords(text.as_str())));
                    }
                    log.push(LogEntry::Log("sync complete".to_owned()));
                    proof {
                        assert(log_views(log@) =~= on_reloaded(old(self)@, *ran).log);
                    }
                    FrrStep { log, action: FrrAction::Finish(Ok(())) }
                } else {
                    log.push(LogEntry::Error("frr-reload.py failed, full output:".to_owned()));
                    log.push(LogEntry::ErrorBlock(redact_passwords(text.as_str())));
                    log.push(
                        LogEntry::Log("falling back to systemctl restart frr.service".to_owned()),
                    );
                    proof {
                        assert(log_views(log@) =~= seq![
                            LogView::Error("frr-reload.py failed, full output:"@),
                            LogView::ErrorBlock(redacted(text@)),
                            LogView::Log("falling back to systemctl restart frr.service"@),
                        ]);
                    }
                    self.restart_frr(log, true)
                }
            },
        }
    }

    fn restarted(&mut self, ran: &Result<CommandOutput, String>) -> (r: FrrStep)
        ensures
            final(self).source() == old(self).source(),
            final(self).target() == old(self).target(),
            final(self)@ == on_restarted(old(self)@, *ran).to,
            shows(r, on_restarted(old(self)@, *ran)),
            ran_decodes(Stage::Restarting, *ran),
    {
        let mut log: Vec<LogEntry> = Vec::new();
        match ran {
            Err(e) => {
                self.stage = Stage::Done;
                proof {
                    assert(log_views(log@) =~= seq![]);
                }
                let msg = "failed to spawn systemctl restart frr.service".to_owned();
                FrrStep { log, action: failed(msg, Some(e)) }
            },
            Ok(out) => if out.success {
                self.stage = Stage::Done;
                let msg = if self.fallback {
                    "frr.service restarted successfully (fallback)".to_owned()
                } else {
                    "frr.service restarted successfully".to_owned()
                };
                log.push(LogEntry::Log(msg));
                log.push(LogEntry::Log("sync complete".to_owned()));
                proof {
                    assert(log_views(log@) =~= on_restarted(old(self)@, *ran).log);
                }
                FrrStep { log, action: FrrAction::Finish(Ok(())) }
            } else {
                self.stage = Stage::Explaining;
                let msg = if self.fallback {
                    "fallback systemctl restart frr.service ALSO failed. Recent frr.service log:".to_owned()
                } else {
                    "systemctl restart frr.service failed. Recent frr.service log:".to_owned()
                };
                log.push(LogEntry::Error(msg));
                let args = vec![
                    "-u".to_owned(),
                    "frr.service".to_owned(),
                    "-n".to_owned(),
                    "50".to_owned(),
                    "--no-pager".to_owned(),
                ];
                proof {
                    assert(log_views(log@) =~= on_restarted(old(self)@, *ran).log);
                    assert(texts(args@) =~= seq![
                        "-u"@,
                        "frr.service"@,
                        "-n"@,
                        "50"@,
                        "--no-pager"@,
                    ]);
                }
                FrrStep { log, action: FrrAction::Run("journalctl", args) }
            },
        }
    }

    fn explained(&mut self, ran: &Result<CommandOutput, String>) -> (r: FrrStep)
        ensures
            final(self).source() == old(self).source(),
            final(self).target() == old(self).target(),
            final(self)@ == on_explained(old(self)@, *ran).to,
            shows(r, on_explained(old(self)@, *ran)),
            ran_decodes(Stage::Explaining, *ran),
    {
        self.stage = Stage::Done;
        let mut log: Vec<LogEntry> = Vec::new();
        match ran {
            Ok(out) => {
                log.push(LogEntry::ErrorBlock(from_utf8_lossy(out.stdout.as_slice())));
            },
            Err(_) => {},
        }
        proof {
            assert(log_views(log@) =~= on_explained(old(self)@, *ran).log);
        }
        FrrStep { log, action: failed("systemctl restart frr.service failed".to_owned(), None) }
    }

    /// Whether an event is one that the sync waits for.
    pub fn expects(&self, event: &FrrEvent) -> (r: bool)
        ensures
            r == awaits(self@.stage, *event),
    {
        match (self.stage, event) {
            (Stage::Probing, FrrEvent::Probed(_)) => true,
            (Stage::Listing, FrrEvent::Listed(_)) => true,
            (Stage::Comparing, FrrEvent::Daemons(_, _)) => true,
            (Stage::Staging, FrrEvent::Staged(_)) => true,
            (Stage::Validating, FrrEvent::Validated(_)) => true,
            (Stage::Owning, FrrEvent::Ran(_)) => true,
            (Stage::Protecting, FrrEvent::Ran(_)) => true,
            (Stage::Copying, FrrEvent::Ran(_)) => true,
            (Stage::Reloading, FrrEvent::Ran(_)) => true,
            (Stage::Restarting, FrrEvent::Ran(_)) => true,
            (Stage::Explaining, FrrEvent::Ran(_)) => true,
            _ => false,
        }
    }

    /// Takes in what came of the last step.
    pub fn advance(&mut self, event: &FrrEvent) -> (r: FrrStep)
        requires
            awaits(old(self)@.stage, *event),
        ensures
            final(self).source() == old(self).source(),
            final(self).target() == old(self).target(),
            final(self)@ == move_on(old(self).source(), old(self).target(), old(self)@, *event).to,
            shows(r, move_on(old(self).source(), old(self).target(), old(self)@, *event)),
            event_decodes(old(self)@.stage, *event),
    {
        match event {
            FrrEvent::Probed(has_entry) => self.probed(*has_entry),
            FrrEvent::Listed(names) => self.listed(names),
            FrrEvent::Daemons(mounted, running) => self.compared(mounted, running),
            FrrEvent::Staged(staged) => self.copied_to_stage(staged),
            FrrEvent::Validated(verdict) => self.validated(verdict),
            FrrEvent::Ran(ran) => match self.stage {
                Stage::Owning => self.owned(ran),
                Stage::Protecting => self.protected(ran),
                Stage::Copying => self.copied(ran),
                Stage::Reloading => self.reloaded(ran),
                Stage::Restarting => self.restarted(ran),
                _ => self.explained(ran),
            },
        }
    }
}

// ---------------------------------------------------------------------------
// Laws
// ---------------------------------------------------------------------------

/// The last step of a sync after some events.
pub open spec fn last_move(src: Seq<char>, dst: Seq<char>, events: Seq<FrrEvent>) -> Move
    decreases events.len(),
{
    if events.len() == 0 {
        first_move()
    } else {
        move_on(src, dst, last_move(src, dst, events.drop_last()).to, events.last())
    }
}

/// Each event is one that the sync was waiting for.
pub open spec fn in_turn(src: Seq<char>, dst: Seq<char>, events: Seq<FrrEvent>) -> bool
    decreases events.len(),
{
    events.len() == 0 || {
        &&& in_turn(src, dst, events.drop_last())
        &&& awaits(last_move(src, dst, events.drop_last()).to.stage, events.last())
    }
}

/// The programs that a sync has asked for, in order.
pub open spec fn programs(src: Seq<char>, dst: Seq<char>, events: Seq<FrrEvent>) -> Seq<Seq<char>>
    decreases events.len(),
{
    if events.len() == 0 {
        seq![]
    } else {
        let before = programs(src, dst, events.drop_last());
        match last_move(src, dst, events).action {
            ActionView::Run(program, _) => before.push(program),
            _ => before,
        }
    }
}

/// The programs that bring the copy into place.
pub open spec fn copying() -> Seq<Seq<char>> {
    seq!["chown"@, "chmod"@, "rsync"@]
}

/// The programs that a sync has asked for when it waits at a stage.
pub open spec fn programs_at(p: Progress) -> Seq<Seq<char>> {
    let restarting = if p.fallback {
        copying().push(FRR_RELOAD@).push("systemctl"@)
    } else {
        copying().push("systemctl"@)
    };
    match p.stage {
        Stage::Owning => copying().take(1),
        Stage::Protecting => copying().take(2),
        Stage::Copying => copying(),
        Stage::Reloading => copying().push(FRR_RELOAD@),
        Stage::Restarting => restarting,
        Stage::Explaining => restarting.push("journalctl"@),
        _ => seq![],
    }
}

/// How many stages lie behind.
pub open spec fn rank(stage: Stage) -> nat {
    match stage {
        Stage::Probing => 0,
        Stage::Listing => 1,
        Stage::Comparing => 2,
        Stage::Staging => 3,
        Stage::Validating => 4,
        Stage::Owning => 5,
        Stage::Protecting => 6,
        Stage::Copying => 7,
        Stage::Reloading => 8,
        Stage::Restarting => 9,
        Stage::Explaining => 10,
        Stage::Done => 11,
    }
}

/// Whether the mounted and the running list of daemons were handed in as
/// different ones.
pub open spec fn daemons_differ(e: FrrEvent) -> bool {
    match e {
        FrrEvent::Daemons(mounted, running) => !(mounted is Some && running is Some
            && mounted.unwrap()@ == running.unwrap()@),
        _ => false,
    }
}

/// The program that an action asks for.
pub open spec fn program_of(action: ActionView) -> Option<Seq<char>> {
    match action {
        ActionView::Run(program, _) => Some(program),
        _ => None,
    }
}

/// What a step from `p` does to the stage, and which program it asks for.
spec fn step_shape(p: Progress, e: FrrEvent, m: Move) -> bool {
    let q = m.to;
    &&& rank(q.stage) > rank(p.stage)
    &&& q.stage == Stage::Done ==> m.action is Finish && p.stage != Stage::Done
    &&& q.stage != Stage::Done ==> {
        &&& q.daemons_changed == (if p.stage == Stage::Comparing {
            daemons_differ(e)
        } else {
            p.daemons_changed
        })
        &&& q.stage == Stage::Restarting || q.fallback == p.fallback
        &&& program_of(m.action) == (match q.stage {
            Stage::Owning => Some("chown"@),
            Stage::Protecting => Some("chmod"@),
            Stage::Copying => Some("rsync"@),
            Stage::Reloading => Some(FRR_RELOAD@),
            Stage::Restarting => Some("systemctl"@),
            Stage::Explaining => Some("journalctl"@),
            _ => None,
        })
        &&& match q.stage {
            Stage::Listing => p.stage == Stage::Probing,
            Stage::Comparing => p.stage == Stage::Listing,
            Stage::Staging => p.stage == Stage::Comparing,
            Stage::Validating => p.stage == Stage::Staging,
            Stage::Owning => p.stage == Stage::Staging || p.stage == Stage::Validating,
            Stage::Protecting => p.stage == Stage::Owning,
            Stage::Copying => p.stage == Stage::Protecting,
            Stage::Reloading => p.stage == Stage::Copying && !p.daemons_changed,
            Stage::Restarting => if q.fallback {
                p.stage == Stage::Reloading
            } else {
                p.stage == Stage::Copying && p.daemons_changed
            },
            Stage::Explaining => p.stage == Stage::Restarting,
            _ => false,
        }
    }
}

proof fn lemma_step(src: Seq<char>, dst: Seq<char>, p: Progress, e: FrrEvent)
    requires
        awaits(p.stage, e),
    ensures
        step_shape(p, e, move_on(src, dst, p, e)),
{
}

/// What holds of a sync after some events: `ran` are the programs it has asked
/// for.
spec fn run_shape(events: Seq<FrrEvent>, p: Progress, ran: Seq<Seq<char>>) -> bool {
    &&& events.len() <= rank(p.stage)
    &&& p.stage != Stage::Done ==> ran == programs_at(p)
    &&& rank(p.stage) >= 3 && p.stage != Stage::Done ==> events.len() >= 3 && p.daemons_changed
        == daemons_differ(events[2])
    &&& rank(p.stage) < 3 ==> events.len() == rank(p.stage)
    &&& p.stage == Stage::Reloading ==> !p.daemons_changed
    &&& p.stage == Stage::Restarting || p.stage == Stage::Explaining ==> p.fallback
        == !p.daemons_changed
}

proof fn lemma_extend(
    events: Seq<FrrEvent>,
    p: Progress,
    ran: Seq<Seq<char>>,
    e: FrrEvent,
    m: Move,
)
    requires
        run_shape(events, p, ran),
        step_shape(p, e, m),
    ensures
        run_shape(
            events.push(e),
            m.to,
            match m.action {
                ActionView::Run(program, _) => ran.push(program),
                _ => ran,
            },
        ),
{
    let all = events.push(e);
    assert(events.len() >= 3 ==> events[2] == all[2]);
    assert(copying().take(1) =~= Seq::<Seq<char>>::empty().push("chown"@));
    assert(copying().take(2) =~= copying().take(1).push("chmod"@));
    assert(copying() =~= copying().take(2).push("rsync"@));
}

proof fn lemma_run(src: Seq<char>, dst: Seq<char>, events: Seq<FrrEvent>)
    requires
        in_turn(src, dst, events),
    ensures
        run_shape(events, last_move(src, dst, events).to, programs(src, dst, events)),
    decreases events.len(),
{
    if events.len() > 0 {
        let before = events.drop_last();
        lemma_run(src, dst, before);
        let p = last_move(src, dst, before).to;
        lemma_step(src, dst, p, events.last());
        lemma_extend(
            before,
            p,
            programs(src, dst, before),
            events.last(),
            last_move(src, dst, events),
        );
        assert(before.push(events.last()) =~= events);
    }
}

/// A sync of an empty source, or of one that cannot be read, succeeds at once
/// and asks for nothing.
pub proof fn law_empty_source_is_a_noop(src: Seq<char>, dst: Seq<char>, has_entry: Option<bool>)
    requires
        has_entry != Some(true),
    ensures
        ({
            let events = seq![FrrEvent::Probed(has_entry)];
            &&& last_move(src, dst, events).action == ActionView::Finish(None)
            &&& programs(src, dst, events).len() == 0
        }),
{
    let events = seq![FrrEvent::Probed(has_entry)];
    reveal_with_fuel(last_move, 2);
    reveal_with_fuel(programs, 2);
    assert(events.drop_last() =~= seq![]);
}

/// A configuration that does not pass the check ends the sync in failure
/// before a single program has been asked for.
pub proof fn law_invalid_config_changes_nothing(
    src: Seq<char>,
    dst: Seq<char>,
    events: Seq<FrrEvent>,
)
    requires
        events.len() > 0,
        in_turn(src, dst, events),
        events.last() matches FrrEvent::Validated(verdict) && verdict is Err,
    ensures
        programs(src, dst, events).len() == 0,
        last_move(src, dst, events).action is Finish,
        last_move(src, dst, events).action->Finish_0 is Some,
{
    lemma_run(src, dst, events);
    lemma_run(src, dst, events.drop_last());
}

/// A copy that could not be given to FRR is never brought into place: nothing
/// follows a `chown` that fails.
pub proof fn law_failed_chown_stops(
    src: Seq<char>,
    dst: Seq<char>,
    events: Seq<FrrEvent>,
    ran: Result<CommandOutput, String>,
)
    requires
        in_turn(src, dst, events),
        last_move(src, dst, events).to.stage == Stage::Owning,
        ran is Err || !ran->Ok_0.success,
    ensures
        in_turn(src, dst, events.push(FrrEvent::Ran(ran))),
        programs(src, dst, events.push(FrrEvent::Ran(ran))) == seq!["chown"@],
        last_move(src, dst, events.push(FrrEvent::Ran(ran))).action is Finish,
        last_move(src, dst, events.push(FrrEvent::Ran(ran))).action->Finish_0 is Some,
{
    let all = events.push(FrrEvent::Ran(ran));
    assert(all.drop_last() =~= events);
    lemma_run(src, dst, events);
    assert(copying().take(1) =~= seq!["chown"@]);
}

/// A copy that could not be protected is never brought into place either:
/// nothing follows a `chmod` that fails.
pub proof fn law_failed_chmod_stops(
    src: Seq<char>,
    dst: Seq<char>,
    events: Seq<FrrEvent>,
    ran: Result<CommandOutput, String>,
)
    requires
        in_turn(src, dst, events),
        last_move(src, dst, events).to.stage == Stage::Protecting,
        ran is Err || !ran->Ok_0.success,
    ensures
        in_turn(src, dst, events.push(FrrEvent::Ran(ran))),
        programs(src, dst, events.push(FrrEvent::Ran(ran))) == seq!["chown"@, "chmod"@],
        last_move(src, dst, events.push(FrrEvent::Ran(ran))).action is Finish,
        last_move(src, dst, events.push(FrrEvent::Ran(ran))).action->Finish_0 is Some,
{
    let all = events.push(FrrEvent::Ran(ran));
    assert(all.drop_last() =~= events);
    lemma_run(src, dst, events);
    assert(copying().take(2) =~= seq!["chown"@, "chmod"@]);
}

/// FRR is neither reloaded nor restarted after an `rsync` that fails.
pub proof fn law_failed_rsync_stops(
    src: Seq<char>,
    dst: Seq<char>,
    events: Seq<FrrEvent>,
    ran: Result<CommandOutput, String>,
)
    requires
        in_turn(src, dst, events),
        last_move(src, dst, events).to.stage == Stage::Copying,
        ran is Err || !ran->Ok_0.success,
    ensures
        in_turn(src, dst, events.push(FrrEvent::Ran(ran))),
        programs(src, dst, events.push(FrrEvent::Ran(ran))) == copying(),
        last_move(src, dst, events.push(FrrEvent::Ran(ran))).action is Finish,
        last_move(src, dst, events.push(FrrEvent::Ran(ran))).action->Finish_0 is Some,
{
    let all = events.push(FrrEvent::Ran(ran));
    assert(all.drop_last() =~= events);
    lemma_run(src, dst, events);
}

/// A reload that ran and failed is followed by a restart.
pub proof fn law_failed_reload_falls_back(
    src: Seq<char>,
    dst: Seq<char>,
    events: Seq<FrrEvent>,
    ran: CommandOutput,
)
    requires
        in_turn(src, dst, events),
        last_move(src, dst, events).to.stage == Stage::Reloading,
        !ran.success,
    ensures
        in_turn(src, dst, events.push(FrrEvent::Ran(Ok(ran)))),
        programs(src, dst, events.push(FrrEvent::Ran(Ok(ran)))) == copying().push(
            FRR_RELOAD@,
        ).push("systemctl"@),
{
    let all = events.push(FrrEvent::Ran(Ok(ran)));
    assert(all.drop_last() =~= events);
    lemma_run(src, dst, events);
}

/// A sync that got past an empty source and succeeded has brought the copy
/// into place. With a changed list of daemons it has then restarted FRR and
/// not reloaded it; with an unchanged one it has reloaded FRR, and restarted
/// it only after that.
pub proof fn law_changed_daemons_restart(src: Seq<char>, dst: Seq<char>, events: Seq<FrrEvent>)
    requires
        events.len() > 1,
        in_turn(src, dst, events),
        last_move(src, dst, events).action == ActionView::Finish(None),
    ensures
        events.len() > 2,
        daemons_differ(events[2]) ==> programs(src, dst, events) == copying().push("systemctl"@),
        !daemons_differ(events[2]) ==> {
            ||| programs(src, dst, events) == copying().push(FRR_RELOAD@)
            ||| programs(src, dst, events) == copying().push(FRR_RELOAD@).push("systemctl"@)
        },
{
    lemma_run(src, dst, events);
    lemma_run(src, dst, events.drop_last());
    assert(events.drop_last().len() >= 3 ==> events.drop_last()[2] == events[2]);
}

/// A sync comes to an end: after at most eleven events it waits for nothing
/// more.
pub proof fn law_sync_ends(src: Seq<char>, dst: Seq<char>, events: Seq<FrrEvent>)
    requires
        in_turn(src, dst, events),
    ensures
        events.len() <= 11,
        events.len() == 11 ==> last_move(src, dst, events).to.stage == Stage::Done,
{
    lemma_run(src, dst, events);
}

/// What the check says of a configuration is redacted before it is logged: two
/// verdicts that are the same once redacted are logged alike.
pub proof fn law_verdict_is_redacted(p: Progress, a: String, b: String)
    requires
        redacted(a@) == redacted(b@),
    ensures
        on_validated(p, Err(a)) == on_validated(p, Err(b)),
{
}

/// What a reload prints is redacted before it is logged: two outputs that are
/// the same once redacted are logged alike. After a success it also shows
/// whether there was any output.
pub proof fn law_reload_output_is_redacted(
    p: Progress,
    success: bool,
    a: Seq<char>,
    b: Seq<char>,
)
    requires
        redacted(a) == redacted(b),
        success ==> (trim_of(a).len() > 0) == (trim_of(b).len() > 0),
    ensures
        reloaded(p, success, a) == reloaded(p, success, b),
{
}

/// The commands that a sync has asked for, in order, each with its arguments.
pub open spec fn commands_asked(
    src: Seq<char>,
    dst: Seq<char>,
    events: Seq<FrrEvent>,
) -> Seq<(Seq<char>, Seq<Seq<char>>)>
    decreases events.len(),
{
    if events.len() == 0 {
        seq![]
    } else {
        let before = commands_asked(src, dst, events.drop_last());
        match last_move(src, dst, events).action {
            ActionView::Run(program, args) => before.push((program, args)),
            _ => before,
        }
    }
}

/// Whether a command ran and succeeded.
pub open spec fn ran_well(e: FrrEvent) -> bool {
    e matches FrrEvent::Ran(Ok(out)) && out.success
}

/// Whether a command ran and failed.
pub open spec fn ran_badly(e: FrrEvent) -> bool {
    e matches FrrEvent::Ran(Ok(out)) && !out.success
}

/// Whether the copy was made, and checked if there is something to check.
spec fn copy_made(events: Seq<FrrEvent>) -> bool {
    &&& events.len() > 3
    &&& events[2] is Daemons
    &&& events[3] matches FrrEvent::Staged(Ok(c)) && (c.has_conf ==> events.len() > 4 && (
    events[4] matches FrrEvent::Validated(Ok(_))))
}

/// The copy that was made.
spec fn copy_of(events: Seq<FrrEvent>) -> StagedConfig {
    events[3]->Staged_0->Ok_0
}

/// How many events come before the first one that tells of a command.
spec fn events_before(events: Seq<FrrEvent>) -> int {
    if copy_of(events).has_conf {
        5
    } else {
        4
    }
}

/// Whether `asked` are the first of the commands that bring a copy into place
/// and make FRR use it.
spec fn commands_are(
    asked: Seq<(Seq<char>, Seq<Seq<char>>)>,
    staged: Seq<char>,
    dst: Seq<char>,
    differ: bool,
) -> bool {
    let restart_at: int = if differ {
        3
    } else {
        4
    };
    &&& asked.len() <= restart_at + 2
    &&& asked.len() > 0 ==> asked[0] == ("chown"@, seq!["-R"@, "frr:frr"@, staged])
    &&& asked.len() > 1 ==> asked[1] == ("chmod"@, seq!["-R"@, "u=rwX,g=rX,o="@, staged])
    &&& asked.len() > 2 ==> asked[2] == (
        "rsync"@,
        seq!["-avi"@, "--delete"@, staged + "/"@, dst + "/"@],
    )
    &&& asked.len() > 3 && !differ ==> asked[3] == (
        FRR_RELOAD@,
        seq!["--reload"@, "--stdout"@, path_in(dst, "frr.conf"@)],
    )
    &&& asked.len() > restart_at ==> asked[restart_at] == (
        "systemctl"@,
        seq!["restart"@, "frr.service"@],
    )
    &&& asked.len() > restart_at + 1 ==> asked[restart_at + 1] == (
        "journalctl"@,
        seq!["-u"@, "frr.service"@, "-n"@, "50"@, "--no-pager"@],
    )
}

/// Whether the events tell, for each command but the last, what made the sync
/// go on to the next one: success, but for a reload or a restart that failed.
spec fn led_on(events: Seq<FrrEvent>, n: int, differ: bool) -> bool {
    let at = events_before(events);
    &&& events.len() >= at + n - 1
    &&& n > 1 ==> ran_well(events[at])
    &&& n > 2 ==> ran_well(events[at + 1])
    &&& n > 3 ==> ran_well(events[at + 2])
    &&& n > 4 ==> ran_badly(events[at + 3])
    &&& n > 5 ==> ran_badly(events[at + 4])
}

spec fn asked_shape(
    dst: Seq<char>,
    events: Seq<FrrEvent>,
    p: Progress,
    asked: Seq<(Seq<char>, Seq<Seq<char>>)>,
) -> bool {
    let n = asked.len() as int;
    &&& p.stage != Stage::Done && rank(p.stage) < 5 ==> n == 0 && events.len() == rank(p.stage)
    &&& rank(p.stage) >= 1 && p.stage != Stage::Done ==> events[0] == FrrEvent::Probed(Some(true))
    &&& rank(p.stage) >= 2 && p.stage != Stage::Done ==> (events[1] matches FrrEvent::Listed(
        Ok(_),
    ))
    &&& rank(p.stage) >= 3 && p.stage != Stage::Done ==> events[2] is Daemons && p.daemons_changed
        == daemons_differ(events[2])
    &&& p.stage == Stage::Validating ==> {
        &&& events[3] matches FrrEvent::Staged(Ok(c)) && c.has_conf
        &&& p.staged == copy_of(events).path@
    }
    &&& p.stage != Stage::Done && rank(p.stage) >= 5 ==> {
        &&& copy_made(events)
        &&& p.staged == copy_of(events).path@
        &&& commands_are(asked, p.staged, dst, p.daemons_changed)
        &&& led_on(events, n, p.daemons_changed)
        &&& events.len() == events_before(events) + n - 1
        &&& n == (match p.stage {
            Stage::Owning => 1int,
            Stage::Protecting => 2,
            Stage::Copying => 3,
            Stage::Reloading => 4,
            Stage::Restarting => if p.daemons_changed {
                4
            } else {
                5
            },
            _ => if p.daemons_changed {
                5
            } else {
                6
            },
        })
        &&& p.stage == Stage::Reloading ==> !p.daemons_changed
    }
}

#[verifier::rlimit(50)]
proof fn lemma_asked(src: Seq<char>, dst: Seq<char>, events: Seq<FrrEvent>)
    requires
        in_turn(src, dst, events),
    ensures
        asked_shape(
            dst,
            events,
            last_move(src, dst, events).to,
            commands_asked(src, dst, events),
        ),
    decreases events.len(),
{
    if events.len() > 0 {
        let before = events.drop_last();
        lemma_asked(src, dst, before);
        let p = last_move(src, dst, before).to;
        let e = events.last();
        lemma_step(src, dst, p, e);
        assert forall|i: int| 0 <= i < before.len() implies events[i] == before[i] by {}
        assert(events[events.len() - 1] == e);
    }
}

/// The commands that a sync asks for are these, in this order and with exactly
/// these arguments: the copy is given to FRR, protected and brought into place;
/// then FRR is restarted if the list of daemons differs, and reloaded if not,
/// which a restart follows where it fails; where the restart fails, its journal
/// is asked for.
#[verifier::rlimit(50)]
pub proof fn law_whole_commands(
    src: Seq<char>,
    dst: Seq<char>,
    events: Seq<FrrEvent>,
    mounted: Option<Vec<u8>>,
    running: Option<Vec<u8>>,
    copy: StagedConfig,
)
    requires
        in_turn(src, dst, events),
        commands_asked(src, dst, events).len() > 0,
        events[2] == FrrEvent::Daemons(mounted, running),
        events[3] == FrrEvent::Staged(Ok(copy)),
    ensures
        ({
            let asked = commands_asked(src, dst, events);
            let unchanged = mounted is Some && running is Some && mounted->0@ == running->0@;
            let at: int = if unchanged {
                4
            } else {
                3
            };
            &&& asked.len() <= at + 2
            &&& asked[0] == ("chown"@, seq!["-R"@, "frr:frr"@, copy.path@])
            &&& asked.len() > 1 ==> asked[1] == (
                "chmod"@,
                seq!["-R"@, "u=rwX,g=rX,o="@, copy.path@],
            )
            &&& asked.len() > 2 ==> asked[2] == (
                "rsync"@,
                seq!["-avi"@, "--delete"@, copy.path@ + "/"@, dst + "/"@],
            )
            &&& asked.len() > 3 && unchanged ==> asked[3] == (
                "/usr/libexec/frr/frr-reload.py"@,
                seq!["--reload"@, "--stdout"@, path_in(dst, "frr.conf"@)],
            )
            &&& asked.len() > at ==> asked[at] == ("systemctl"@, seq!["restart"@, "frr.service"@])
            &&& asked.len() > at + 1 ==> asked[at + 1] == (
                "journalctl"@,
                seq!["-u"@, "frr.service"@, "-n"@, "50"@, "--no-pager"@],
            )
        }),
{
    lemma_asked(src, dst, events);
    if last_move(src, dst, events).to.stage == Stage::Done {
        lemma_asked(src, dst, events.drop_last());
        lemma_step(src, dst, last_move(src, dst, events.drop_last()).to, events.last());
        assert(events.drop_last()[2] == events[2]);
        assert(events.drop_last()[3] == events[3]);
    }
}

/// Whenever a sync asks for `systemctl`, it asks for `restart frr.service` and
/// nothing else.
pub proof fn law_systemctl_restarts_frr(
    src: Seq<char>,
    dst: Seq<char>,
    events: Seq<FrrEvent>,
    args: Seq<Seq<char>>,
)
    requires
        in_turn(src, dst, events),
        last_move(src, dst, events).action == ActionView::Run("systemctl"@, args),
    ensures
        args == seq!["restart"@, "frr.service"@],
{
    assert(events.len() > 0);
    let p = last_move(src, dst, events.drop_last()).to;
    lemma_step(src, dst, p, events.last());
    reveal_strlit("systemctl");
    reveal_strlit("chown");
    reveal_strlit("chmod");
    reveal_strlit("rsync");
    reveal_strlit("journalctl");
    reveal_strlit("/usr/libexec/frr/frr-reload.py");
    assert("systemctl"@.len() == 9);
    assert("chown"@.len() == 5 && "chmod"@.len() == 5 && "rsync"@.len() == 5);
    assert("journalctl"@.len() == 10 && FRR_RELOAD@.len() == 30);
    assert(last_move(src, dst, events).to.stage == Stage::Restarting);
}

/// A sync that got past an empty source and succeeded has asked, as its last
/// command, to restart FRR if the list of daemons differs. If it does not, it
/// has asked to reload FRR, and to restart it only because that failed. The
/// last command ran and succeeded.
#[verifier::rlimit(50)]
pub proof fn law_success_means_restarted_or_reloaded(
    src: Seq<char>,
    dst: Seq<char>,
    events: Seq<FrrEvent>,
    mounted: Option<Vec<u8>>,
    running: Option<Vec<u8>>,
)
    requires
        events.len() > 2,
        in_turn(src, dst, events),
        events[2] == FrrEvent::Daemons(mounted, running),
        last_move(src, dst, events).action == ActionView::Finish(None),
    ensures
        ({
            let asked = commands_asked(src, dst, events);
            let unchanged = mounted is Some && running is Some && mounted->0@ == running->0@;
            &&& ran_well(events.last())
            &&& !unchanged ==> asked.len() == 4 && asked[3] == (
                "systemctl"@,
                seq!["restart"@, "frr.service"@],
            )
            &&& unchanged ==> {
                &&& asked.len() == 4 || asked.len() == 5
                &&& asked[3] == (
                    "/usr/libexec/frr/frr-reload.py"@,
                    seq!["--reload"@, "--stdout"@, path_in(dst, "frr.conf"@)],
                )
                &&& asked.len() == 5 ==> ran_badly(events[events.len() - 2]) && asked[4] == (
                    "systemctl"@,
                    seq!["restart"@, "frr.service"@],
                )
            }
        }),
{
    let before = events.drop_last();
    lemma_asked(src, dst, before);
    lemma_step(src, dst, last_move(src, dst, before).to, events.last());
    assert forall|i: int| 0 <= i < before.len() implies events[i] == before[i] by {}
}

/// No command is asked for before the copy is made, and none before a copied
/// `frr.conf` has passed the check. Each of the first four commands comes only
/// after the one before it has run and succeeded, and each of the others only
/// after the one before it has run and failed.
#[verifier::rlimit(50)]
pub proof fn law_commands_wait_for_each_other(
    src: Seq<char>,
    dst: Seq<char>,
    events: Seq<FrrEvent>,
    k: int,
)
    requires
        in_turn(src, dst, events),
        0 <= k < commands_asked(src, dst, events).len(),
    ensures
        events.len() > 3,
        events[0] == FrrEvent::Probed(Some(true)),
        events[3] matches FrrEvent::Staged(Ok(copy)) && {
            let first: int = if copy.has_conf {
                5
            } else {
                4
            };
            &&& copy.has_conf ==> events.len() > 4 && (events[4] matches FrrEvent::Validated(
                Ok(_),
            ))
            &&& events.len() >= first + k
            &&& 1 <= k <= 3 ==> ran_well(events[first + k - 1])
            &&& k >= 4 ==> ran_badly(events[first + k - 1])
        },
{
    lemma_asked(src, dst, events);
    if last_move(src, dst, events).to.stage == Stage::Done {
        let before = events.drop_last();
        lemma_asked(src, dst, before);
        lemma_step(src, dst, last_move(src, dst, before).to, events.last());
        assert forall|i: int| 0 <= i < before.len() implies events[i] == before[i] by {}
    }
}

/// A sync goes on wherever it can: after a copy that needs no check or passed
/// it the first command is asked for, and after each of the first three
/// commands that ran and succeeded the next one.
pub proof fn law_sync_goes_on(src: Seq<char>, dst: Seq<char>, events: Seq<FrrEvent>, e: FrrEvent)
    requires
        in_turn(src, dst, events.push(e)),
    ensures
        ({
            let n = commands_asked(src, dst, events).len();
            let m = commands_asked(src, dst, events.push(e)).len();
            &&& (e matches FrrEvent::Staged(Ok(copy)) && !copy.has_conf) ==> n == 0 && m == 1
            &&& (e matches FrrEvent::Staged(Ok(copy)) && copy.has_conf) ==> last_move(
                src,
                dst,
                events.push(e),
            ).action == ActionView::Validate
            &&& (e matches FrrEvent::Validated(Ok(_))) ==> n == 0 && m == 1
            &&& e is Ran ==> n > 0
            &&& n <= 3 && ran_well(e) ==> m == n + 1
        }),
{
    let all = events.push(e);
    assert(all.drop_last() =~= events);
    lemma_asked(src, dst, events);
    lemma_step(src, dst, last_move(src, dst, events).to, e);
}

/// What could not be done ends a sync in failure, and the failure says why:
/// files that cannot be listed or copied, a configuration that does not pass,
/// a command that does not start.
#[verifier::rlimit(50)]
pub proof fn law_what_fails_is_told(
    src: Seq<char>,
    dst: Seq<char>,
    events: Seq<FrrEvent>,
    e: FrrEvent,
)
    requires
        in_turn(src, dst, events.push(e)),
    ensures
        ({
            let n = commands_asked(src, dst, events).len();
            let m = last_move(src, dst, events.push(e));
            let told = |text: Seq<char>, cause: Option<Seq<char>>|
                m.action == ActionView::Finish(Some(FailureView { message: text, cause }));
            &&& (e matches FrrEvent::Listed(Err(why)) ==> told(why@, None))
            &&& (e matches FrrEvent::Staged(Err(StageFailure::Creating(why))) ==> told(
                "failed to create staging directory"@,
                Some(why@),
            ))
            &&& (e matches FrrEvent::Staged(Err(StageFailure::Copying(why))) ==> told(
                "failed to stage source config"@,
                Some(why@),
            ))
            &&& (e matches FrrEvent::Validated(Err(why)) ==> told(
                "frr.conf validation failed"@,
                None,
            ))
            &&& (e matches FrrEvent::Ran(Err(why)) ==> {
                let journal = last_move(src, dst, events).to.stage == Stage::Explaining;
                let reload = last_move(src, dst, events).to.stage == Stage::Reloading;
                &&& n == 1 ==> told("failed to spawn chown"@, Some(why@))
                &&& n == 2 ==> told("failed to spawn chmod"@, Some(why@))
                &&& n == 3 ==> told("failed to spawn rsync"@, Some(why@))
                &&& n >= 4 && reload ==> told("failed to spawn frr-reload.py"@, Some(why@))
                &&& n >= 4 && journal ==> told("systemctl restart frr.service failed"@, None)
                &&& n >= 4 && !reload && !journal ==> told(
                    "failed to spawn systemctl restart frr.service"@,
                    Some(why@),
                )
            })
            &&& (e matches FrrEvent::Ran(Ok(out)) ==> {
                let path = events[3]->Staged_0->Ok_0.path@;
                let said = utf8_lossy(out.stderr@);
                &&& n == 1 && !out.success ==> told(
                    "chown -R frr:frr "@ + path + " failed: "@ + said,
                    None,
                )
                &&& n == 2 && !out.success ==> told(
                    "chmod -R u=rwX,g=rX,o= "@ + path + " failed: "@ + said,
                    None,
                )
                &&& n == 3 && !out.success ==> told("rsync failed"@, None)
            })
        }),
{
    let all = events.push(e);
    assert(all.drop_last() =~= events);
    lemma_asked(src, dst, events);
    lemma_step(src, dst, last_move(src, dst, events).to, e);
}

/// What a failed check says is logged, redacted, under two lines that tell what
/// it is; nothing is logged of a check that passed but that it did.
pub proof fn law_verdict_is_logged(
    src: Seq<char>,
    dst: Seq<char>,
    events: Seq<FrrEvent>,
    e: FrrEvent,
)
    requires
        in_turn(src, dst, events.push(e)),
    ensures
        e matches FrrEvent::Validated(Err(why)) ==> last_move(src, dst, events.push(e)).log == seq![
            LogView::Error(
                "staged frr.conf failed validation, keeping the currently running config unchanged."@,
            ),
            LogView::Error("validation output:"@),
            LogView::ErrorBlock(redacted(why@)),
        ],
        (e matches FrrEvent::Validated(Ok(_))) ==> last_move(src, dst, events.push(e)).log == seq![
            LogView::Log("validation passed"@),
        ],
{
    let all = events.push(e);
    assert(all.drop_last() =~= events);
}

/// What a command printed is logged: the files that `rsync` changed, what it
/// said when it failed, the redacted output of a reload, and the journal.
#[verifier::rlimit(50)]
pub proof fn law_output_is_logged(
    src: Seq<char>,
    dst: Seq<char>,
    events: Seq<FrrEvent>,
    out: CommandOutput,
)
    requires
        in_turn(src, dst, events.push(FrrEvent::Ran(Ok(out)))),
    ensures
        ({
            let n = commands_asked(src, dst, events).len();
            let stage = last_move(src, dst, events).to.stage;
            let log = last_move(src, dst, events.push(FrrEvent::Ran(Ok(out)))).log;
            let said = utf8_lossy(out.stdout@);
            let changed = changes_in(lines_of(said));
            &&& n == 2 && out.success ==> log == seq![
                LogView::Log("rsyncing staged config into "@ + dst),
            ]
            &&& n == 3 && out.success ==> log.len() > 1 && log[0] == LogView::Log(
                "rsync complete, "@ + decimal(changed.len()) + " file(s) changed"@,
            )
            &&& n == 3 && out.success && changed.len() > 0 ==> log[1] == LogView::Block(
                join_of(changed, "\n"@),
            )
            &&& n == 3 && !out.success ==> log == seq![
                LogView::Error("rsync into "@ + dst + " failed:"@),
                LogView::ErrorBlock(utf8_lossy(out.stderr@)),
            ]
            &&& stage == Stage::Reloading && out.success ==> {
                &&& log[0] == LogView::Log("frr-reload.py succeeded"@)
                &&& log.last() == LogView::Log("sync complete"@)
                &&& trim_of(said).len() > 0 ==> log.len() == 3 && log[1] == LogView::Block(
                    redacted(said),
                )
            }
            &&& stage == Stage::Reloading && !out.success ==> log.len() > 1 && log[0]
                == LogView::Error("frr-reload.py failed, full output:"@) && log[1]
                == LogView::ErrorBlock(redacted(said))
            &&& stage == Stage::Explaining ==> log == seq![LogView::ErrorBlock(said)]
        }),
{
    let all = events.push(FrrEvent::Ran(Ok(out)));
    assert(all.drop_last() =~= events);
    lemma_asked(src, dst, events);
    lemma_step(src, dst, last_move(src, dst, events).to, FrrEvent::Ran(Ok(out)));
}

/// The lines that tell of changed files are told in order and in full: a line
/// more is told behind the others if it starts with `<`, `>`, `c`, `h` or `*`,
/// and not at all if it does not.
pub proof fn law_changes_are_told(lines: Seq<Seq<char>>, c: char, rest: Seq<char>)
    ensures
        ({
            let line = seq![c] + rest;
            let all = changes_in(lines.push(line));
            if c == '<' || c == '>' || c == 'c' || c == 'h' || c == '*' {
                all == changes_in(lines).push(line)
            } else {
                all == changes_in(lines)
            }
        }),
        changes_in(lines.push(seq![])) == changes_in(lines),
        changes_in(seq![]).len() == 0,
{
    let line = seq![c] + rest;
    assert(line[0] == c);
    assert(lines.push(line).drop_last() =~= lines);
    assert(lines.push(seq![]).drop_last() =~= lines);
}

/// A sync says what it does: that there is nothing to do, which files it starts
/// from, that differing daemons take a restart, and what it asks of FRR.
#[verifier::rlimit(50)]
pub proof fn law_steps_are_announced(
    src: Seq<char>,
    dst: Seq<char>,
    events: Seq<FrrEvent>,
    e: FrrEvent,
)
    requires
        in_turn(src, dst, events.push(e)),
    ensures
        ({
            let m = last_move(src, dst, events.push(e));
            &&& (e matches FrrEvent::Probed(has_entry) ==> {
                &&& has_entry != Some(true) ==> m.action == ActionView::Finish(None) && m.log
                    == seq![LogView::Log(src + " is empty or not mounted, nothing to sync"@)]
                &&& has_entry == Some(true) ==> m.action == ActionView::ListSource && m.log.len()
                    == 0
            })
            &&& (e matches FrrEvent::Listed(Ok(names)) ==> m.action == ActionView::ReadDaemons
                && m.log == seq![
                LogView::Log(
                    "starting sync from "@ + src + " (files: "@ + join_of(
                        sorted_texts(name_texts(names@)),
                        " "@,
                    ) + ")"@,
                ),
            ])
            &&& (e matches FrrEvent::Daemons(mounted, running) ==> {
                let unchanged = mounted is Some && running is Some && mounted->0@ == running->0@;
                &&& m.action == ActionView::Stage
                &&& unchanged ==> m.log.len() == 0
                &&& !unchanged ==> m.log == seq![
                    LogView::Log(
                        "daemons file differs from the currently running one - will restart frr.service, not reload"@,
                    ),
                ]
            })
            &&& m.action == ActionView::Validate ==> m.log == seq![
                LogView::Log("validating staged frr.conf (vty socket, mgmtd -C style check)"@),
            ]
            &&& m.to.stage == Stage::Reloading ==> m.log.last() == LogView::Log(
                "reloading frr configuration (frr-reload.py --reload)"@,
            )
            &&& m.to.stage == Stage::Restarting && !m.to.fallback ==> m.log.last() == LogView::Log(
                "restarting frr.service"@,
            )
            &&& m.to.stage == Stage::Restarting && m.to.fallback ==> m.log.last() == LogView::Log(
                "restarting frr.service (fallback)"@,
            )
        }),
{
    let all = events.push(e);
    assert(all.drop_last() =~= events);
    lemma_step(src, dst, last_move(src, dst, events).to, e);
}

/// A restart is told as it went: that it succeeded and the sync is complete, or
/// that it failed, and whether it was the fallback of a reload that failed.
pub proof fn law_restart_is_told(
    src: Seq<char>,
    dst: Seq<char>,
    events: Seq<FrrEvent>,
    out: CommandOutput,
)
    requires
        in_turn(src, dst, events.push(FrrEvent::Ran(Ok(out)))),
        last_move(src, dst, events).to.stage == Stage::Restarting,
    ensures
        ({
            let m = last_move(src, dst, events.push(FrrEvent::Ran(Ok(out))));
            let fallback = !daemons_differ(events[2]);
            &&& out.success && fallback ==> m.log == seq![
                LogView::Log("frr.service restarted successfully (fallback)"@),
                LogView::Log("sync complete"@),
            ]
            &&& out.success && !fallback ==> m.log == seq![
                LogView::Log("frr.service restarted successfully"@),
                LogView::Log("sync complete"@),
            ]
            &&& !out.success && fallback ==> m.log == seq![
                LogView::Error(
                    "fallback systemctl restart frr.service ALSO failed. Recent frr.service log:"@,
                ),
            ]
            &&& !out.success && !fallback ==> m.log == seq![
                LogView::Error("systemctl restart frr.service failed. Recent frr.service log:"@),
            ]
            &&& out.success <==> m.action == ActionView::Finish(None)
        }),
{
    let all = events.push(FrrEvent::Ran(Ok(out)));
    assert(all.drop_last() =~= events);
    lemma_run(src, dst, events);
}

/// A step asks for exactly the command of its move, program and arguments, and
/// ends the sync exactly where the move does.
pub proof fn law_step_is_its_move(step: FrrStep, m: Move, i: int)
    requires
        shows(step, m),
    ensures
        step.log@.len() == m.log.len(),
        0 <= i < m.log.len() ==> step.log@[i]@ == m.log[i],
        step.action is Run <==> m.action is Run,
        step.action matches FrrAction::Run(program, args) ==> {
            &&& m.action->Run_0 == program@
            &&& m.action->Run_1.len() == args@.len()
            &&& 0 <= i < args@.len() ==> m.action->Run_1[i] == args@[i]@
        },
        (step.action matches FrrAction::Finish(Ok(_))) <==> m.action == ActionView::Finish(None),
        step.action matches FrrAction::Finish(Err(f)) ==> m.action is Finish && m.action->Finish_0
            is Some && m.action->Finish_0->0.message == f.message@,
        step.action is Validate <==> m.action is Validate,
        step.action is Stage <==> m.action is Stage,
{
    assert(log_views(step.log@).len() == step.log@.len());
}

/// A sync waits for what answers its last action, and for nothing else; once it
/// has ended it waits for nothing.
pub proof fn law_events_answer_actions(
    src: Seq<char>,
    dst: Seq<char>,
    events: Seq<FrrEvent>,
    e: FrrEvent,
)
    requires
        in_turn(src, dst, events),
    ensures
        awaits(last_move(src, dst, events).to.stage, e) <==> match last_move(
            src,
            dst,
            events,
        ).action {
            ActionView::ProbeSource => e is Probed,
            ActionView::ListSource => e is Listed,
            ActionView::ReadDaemons => e is Daemons,
            ActionView::Stage => e is Staged,
            ActionView::Validate => e is Validated,
            ActionView::Run(..) => e is Ran,
            ActionView::Finish(_) => false,
        },
{
}

} // verus!
