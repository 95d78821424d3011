//! Applying the network's desired state: each nmstate document of the mounted
//! ConfigMap, in the order of their names, until one of them fails.
//!
//! The sync decides one step at a time. Each step says what to log and what
//! to do; what came of it is handed back as an event.

use vstd::prelude::*;
use crate::logger::{log_views, LogEntry, LogView};
use crate::order::positions;
use crate::outside::{
    decodes, from_utf8_lossy, is_desired_state, read_desired_state, reads_as, utf8_lossy,
};
use crate::source::{
    ends_in, is_empty_source, join_path, law_all_statefiles_are_applied,
    law_statefiles_are_applied_by_name, law_statefiles_end_in_yml_or_yaml,
    lemma_statefiles_are_positions, list_names, name_le, name_texts, names_decode, path_in,
    sorted_texts, statefiles_in_order, statefiles_to_apply, SourceEntry,
};
use crate::text::{cat, cat3, cat5, join, join_of, lemma_texts_push, texts};

verus! {

/// How far a sync has come: what it waits for.
#[derive(Clone, Copy, PartialEq, Eq, Structural)]
pub enum Stage {
    /// Whether anything is mounted.
    Probing,
    /// The names of the mounted files.
    Listing,
    /// The mounted files themselves.
    Finding,
    /// What a document holds.
    Reading,
    /// What came of applying a document.
    Applying,
    /// Nothing any more.
    Done,
}

/// Why the mounted files are not known.
pub enum FindFailure {
    /// The directory could not be opened.
    Opening(String),
    /// It could not be read to its end.
    Walking(String),
}

/// What came of a step. Where something could not be done, the text of the
/// error is handed in.
pub enum NetworkEvent {
    /// Whether the mounted directory has an entry; `None` if it cannot be
    /// read.
    Probed(Option<bool>),
    /// The names in the mounted directory.
    Listed(Result<Vec<Vec<u8>>, String>),
    /// The entries of the mounted directory.
    Found(Result<Vec<SourceEntry>, FindFailure>),
    /// What a document holds.
    Content(Result<String, String>),
    /// What came of applying a document.
    Applied(Result<(), nmstate::NmstateError>),
}

/// What is behind a failure.
pub enum Cause {
    Nothing,
    Text(String),
    Nmstate(nmstate::NmstateError),
}

/// Why a sync failed.
pub struct NetworkFailure {
    pub message: String,
    pub cause: Cause,
}

/// What to do next.
pub enum NetworkAction {
    /// See whether the mounted directory has an entry.
    ProbeSource,
    /// List the mounted directory.
    ListSource,
    /// Find out what the entries of the mounted directory are.
    FindEntries,
    /// Read the entry at a position among those that were found.
    Read(usize),
    /// Apply a desired state.
    Apply(nmstate::NetworkState),
    /// Stop.
    Finish(Result<(), NetworkFailure>),
}

/// What is behind a failure, as a mathematical value.
pub enum CauseView {
    Nothing,
    Text(Seq<char>),
    Nmstate(nmstate::NmstateError),
}

/// A failure as a mathematical value.
pub struct FailureView {
    pub message: Seq<char>,
    pub cause: CauseView,
}

/// An action as a mathematical value.
pub enum ActionView {
    ProbeSource,
    ListSource,
    FindEntries,
    Read(int),
    Apply(nmstate::NetworkState),
    Finish(Option<FailureView>),
}

impl View for NetworkFailure {
    type V = FailureView;

    open spec fn view(&self) -> FailureView {
        FailureView {
            message: self.message@,
            cause: match self.cause {
                Cause::Nothing => CauseView::Nothing,
                Cause::Text(s) => CauseView::Text(s@),
                Cause::Nmstate(e) => CauseView::Nmstate(e),
            },
        }
    }
}

impl View for NetworkAction {
    type V = ActionView;

    open spec fn view(&self) -> ActionView {
        match self {
            NetworkAction::ProbeSource => ActionView::ProbeSource,
            NetworkAction::ListSource => ActionView::ListSource,
            NetworkAction::FindEntries => ActionView::FindEntries,
            NetworkAction::Read(i) => ActionView::Read(*i as int),
            NetworkAction::Apply(state) => ActionView::Apply(*state),
            NetworkAction::Finish(r) => ActionView::Finish(
                match r {
                    Ok(_) => None,
                    Err(f) => Some(f@),
                },
            ),
        }
    }
}

/// One step: what to log, then what to do.
pub struct NetworkStep {
    pub log: Vec<LogEntry>,
    pub action: NetworkAction,
}

/// How far a sync has come: its stage, where the documents stand among the
/// entries of the directory, their names, and how many have been applied.
pub struct Progress {
    pub stage: Stage,
    pub order: Seq<int>,
    pub names: Seq<Seq<char>>,
    pub applied: nat,
}

/// A step as a mathematical value, with where it leads.
pub struct Move {
    pub to: Progress,
    pub log: Seq<LogView>,
    pub action: ActionView,
}

/// Ends a sync with an error.
pub open spec fn fail(p: Progress, message: Seq<char>, cause: CauseView) -> Move {
    Move {
        to: Progress { stage: Stage::Done, ..p },
        log: seq![],
        action: ActionView::Finish(Some(FailureView { message, cause })),
    }
}

/// The first step.
pub open spec fn first_move() -> Move {
    Move {
        to: Progress { stage: Stage::Probing, order: seq![], names: seq![], applied: 0 },
        log: seq![],
        action: ActionView::ProbeSource,
    }
}

/// Nothing happens when nothing is mounted.
pub open spec fn on_probed(src: Seq<char>, p: Progress, has_entry: Option<bool>) -> Move {
    if has_entry == Some(true) {
        Move {
            to: Progress { stage: Stage::Listing, ..p },
            log: seq![],
            action: ActionView::ListSource,
        }
    } else {
        Move {
            to: Progress { stage: Stage::Done, ..p },
            log: seq![LogView::Log(src + " is empty or not mounted, nothing to sync"@)],
            action: ActionView::Finish(None),
        }
    }
}

/// The mounted files are logged by name.
pub open spec fn on_listed(
    src: Seq<char>,
    p: Progress,
    names: Result<Vec<Vec<u8>>, String>,
) -> Move {
    match names {
        Err(e) => fail(p, e@, CauseView::Nothing),
        Ok(v) => Move {
            to: Progress { stage: Stage::Finding, ..p },
            log: seq![
                LogView::Log(
                    "starting sync from "@ + src + " (files: "@ + join_of(
                        sorted_texts(name_texts(v@)),
                        " "@,
                    ) + ")"@,
                ),
            ],
            action: ActionView::FindEntries,
        },
    }
}

/// Goes on to the next document, or ends after the last one.
pub open spec fn turn(p: Progress, log: Seq<LogView>) -> Move {
    if p.applied < p.names.len() {
        Move {
            to: Progress { stage: Stage::Reading, ..p },
            log: log.push(LogView::Log("applying nmstate state "@ + p.names[p.applied as int])),
            action: ActionView::Read(p.order[p.applied as int]),
        }
    } else {
        Move {
            to: Progress { stage: Stage::Done, ..p },
            log: log.push(LogView::Log("sync complete"@)),
            action: ActionView::Finish(None),
        }
    }
}

/// The names of the entries at some positions.
pub open spec fn names_at(entries: Seq<SourceEntry>, order: Seq<int>) -> Seq<Seq<char>> {
    Seq::new(order.len(), |i: int| utf8_lossy(entries[order[i]].name@))
}

/// The documents among the entries are taken in the order of their names.
pub open spec fn on_found(
    src: Seq<char>,
    p: Progress,
    found: Result<Vec<SourceEntry>, FindFailure>,
) -> Move {
    match found {
        Err(FindFailure::Opening(e)) => fail(p, "failed to read "@ + src, CauseView::Text(e@)),
        Err(FindFailure::Walking(e)) => fail(p, e@, CauseView::Nothing),
        Ok(entries) => {
            let order = statefiles_in_order(entries@);
            turn(
                Progress { stage: p.stage, order, names: names_at(entries@, order), applied: 0 },
                seq![],
            )
        },
    }
}

/// A document that cannot be read ends the sync.
pub open spec fn unreadable(src: Seq<char>, p: Progress, e: Seq<char>) -> Move {
    fail(p, "failed to read "@ + path_in(src, p.names[p.applied as int]), CauseView::Text(e))
}

/// A document that is no desired state ends the sync, one that is gets
/// applied.
pub open spec fn on_parsed(
    p: Progress,
    parsed: Result<nmstate::NetworkState, nmstate::NmstateError>,
) -> Move {
    match parsed {
        Ok(state) => Move {
            to: Progress { stage: Stage::Applying, ..p },
            log: seq![],
            action: ActionView::Apply(state),
        },
        Err(e) => fail(
            p,
            "failed to parse "@ + p.names[p.applied as int] + " as an nmstate desired state"@,
            CauseView::Nmstate(e),
        ),
    }
}

/// A document that cannot be applied ends the sync; after the others the next
/// one follows.
pub open spec fn on_applied(p: Progress, r: Result<(), nmstate::NmstateError>) -> Move {
    match r {
        Err(e) => fail(p, "failed to apply "@ + p.names[p.applied as int], CauseView::Nmstate(e)),
        Ok(_) => turn(
            Progress { applied: p.applied + 1, ..p },
            seq![LogView::Log("applied "@ + p.names[p.applied as int] + " successfully"@)],
        ),
    }
}

/// The events that a stage waits for.
pub open spec fn awaits(stage: Stage, e: NetworkEvent) -> bool {
    match stage {
        Stage::Probing => e is Probed,
        Stage::Listing => e is Listed,
        Stage::Finding => e is Found,
        Stage::Reading => e is Content,
        Stage::Applying => e is Applied,
        Stage::Done => false,
    }
}

/// Whether a step is one that an event leads to. A document is read as a
/// desired state before it is applied.
pub open spec fn follows(src: Seq<char>, p: Progress, e: NetworkEvent, m: Move) -> bool {
    match e {
        NetworkEvent::Probed(has_entry) => m == on_probed(src, p, has_entry),
        NetworkEvent::Listed(names) => m == on_listed(src, p, names),
        NetworkEvent::Found(found) => m == on_found(src, p, found),
        NetworkEvent::Content(Err(e)) => m == unreadable(src, p, e@),
        NetworkEvent::Content(Ok(yaml)) => exists|
            parsed: Result<nmstate::NetworkState, nmstate::NmstateError>,
        |
            {
                &&& reads_as(yaml@, parsed)
                &&& (parsed is Ok) == is_desired_state(yaml@)
                &&& m == #[trigger] on_parsed(p, parsed)
            },
        NetworkEvent::Applied(r) => m == on_applied(p, r),
    }
}

/// Whether the names of the documents among some entries, if they are UTF-8,
/// are made the texts that they encode.
pub open spec fn entries_decode(entries: Seq<SourceEntry>) -> bool {
    forall|i: int|
        0 <= i < statefiles_in_order(entries).len() ==> decodes(
            entries[#[trigger] statefiles_in_order(entries)[i]].name@,
        )
}

/// Whether what an event brings as bytes, if it is UTF-8, is made the text
/// that it encodes.
pub open spec fn event_decodes(e: NetworkEvent) -> bool {
    match e {
        NetworkEvent::Listed(Ok(names)) => names_decode(names@),
        NetworkEvent::Found(Ok(entries)) => entries_decode(entries@),
        _ => true,
    }
}

/// A step says what a move says.
pub open spec fn shows(step: NetworkStep, m: Move) -> bool {
    log_views(step.log@) == m.log && step.action@ == m.action
}

/// One sync.
pub struct NetworkSync {
    src: String,
    stage: Stage,
    order: Vec<usize>,
    names: Vec<String>,
    applied: usize,
}

impl View for NetworkSync {
    type V = Progress;

    closed spec fn view(&self) -> Progress {
        Progress {
            stage: self.stage,
            order: positions(self.order@),
            names: texts(self.names@),
            applied: self.applied as nat,
        }
    }
}

fn no_log() -> (r: Vec<LogEntry>)
    ensures
        log_views(r@) == Seq::<LogView>::empty(),
{
    let log: Vec<LogEntry> = Vec::new();
    proof {
        assert(log_views(log@) =~= seq![]);
    }
    log
}

/// Starts applying the desired state that is mounted at `src`.
pub fn sync(src: &str) -> (r: (NetworkSync, NetworkStep))
    ensures
        r.0.wf(),
        r.0.source() == src@,
        r.0@ == first_move().to,
        shows(r.1, first_move()),
{
    let s = NetworkSync {
        src: src.to_owned(),
        stage: Stage::Probing,
        order: Vec::new(),
        names: Vec::new(),
        applied: 0,
    };
    proof {
        assert(positions(s.order@) =~= seq![]);
        assert(texts(s.names@) =~= seq![]);
    }
    (s, NetworkStep { log: no_log(), action: NetworkAction::ProbeSource })
}

impl NetworkSync {
    /// Where the documents come from.
    pub closed spec fn source(self) -> Seq<char> {
        self.src@
    }

    /// While a document is read or applied, there is one.
    pub closed spec fn wf(self) -> bool {
        &&& self.order@.len() == self.names@.len()
        &&& self.applied <= self.names@.len()
        &&& self.stage == Stage::Reading || self.stage == Stage::Applying ==> self.applied
            < self.names@.len()
    }

    fn stop(&mut self, message: String, cause: Cause) -> (r: NetworkStep)
        requires
            old(self).wf(),
        ensures
            final(self).wf(),
            final(self).source() == old(self).source(),
            final(self)@ == (Progress { stage: Stage::Done, ..old(self)@ }),
            log_views(r.log@) == Seq::<LogView>::empty(),
            r.action@ == ActionView::Finish(Some((NetworkFailure { message, cause })@)),
    {
        self.stage = Stage::Done;
        NetworkStep {
            log: no_log(),
            action: NetworkAction::Finish(Err(NetworkFailure { message, cause })),
        }
    }

    fn go_on(&mut self, log: Vec<LogEntry>) -> (r: NetworkStep)
        requires
            old(self).order@.len() == old(self).names@.len(),
            old(self).applied <= old(self).names@.len(),
        ensures
            final(self).wf(),
            final(self).source() == old(self).source(),
            final(self)@ == turn(old(self)@, log_views(log@)).to,
            shows(r, turn(old(self)@, log_views(log@))),
    {
        let mut log = log;
        let ghost before = log@;
        if self.applied < self.names.len() {
            self.stage = Stage::Reading;
            log.push(
                LogEntry::Log(cat("applying nmstate state ", self.names[self.applied].as_str())),
            );
            proof {
                assert(log_views(log@) =~= turn(old(self)@, log_views(before)).log);
            }
            NetworkStep { log, action: NetworkAction::Read(self.order[self.applied]) }
        } else {
            self.stage = Stage::Done;
            log.push(LogEntry::Log("sync complete".to_owned()));
            proof {
                assert(log_views(log@) =~= turn(old(self)@, log_views(before)).log);
            }
            NetworkStep { log, action: NetworkAction::Finish(Ok(())) }
        }
    }

    fn probed(&mut self, has_entry: Option<bool>) -> (r: NetworkStep)
        requires
            old(self).wf(),
        ensures
            final(self).wf(),
            final(self).source() == old(self).source(),
            final(self)@ == on_probed(old(self).source(), old(self)@, has_entry).to,
            shows(r, on_probed(old(self).source(), old(self)@, has_entry)),
    {
        if is_empty_source(has_entry) {
            self.stage = Stage::Done;
            let log = vec![
                LogEntry::Log(
                    cat(self.src.as_str(), " is empty or not mounted, nothing to sync"),
                ),
            ];
            proof {
                assert(log_views(log@) =~= on_probed(
                    old(self).source(),
                    old(self)@,
                    has_entry,
                ).log);
            }
            NetworkStep { log, action: NetworkAction::Finish(Ok(())) }
        } else {
            self.stage = Stage::Listing;
            NetworkStep { log: no_log(), action: NetworkAction::ListSource }
        }
    }

    fn listed(&mut self, names: &Result<Vec<Vec<u8>>, String>) -> (r: NetworkStep)
        requires
            old(self).wf(),
        ensures
            final(self).wf(),
            final(self).source() == old(self).source(),
            final(self)@ == on_listed(old(self).source(), old(self)@, *names).to,
            shows(r, on_listed(old(self).source(), old(self)@, *names)),
            match *names {
                Ok(v) => names_decode(v@),
                Err(_) => true,
            },
    {
        match names {
            Err(e) => self.stop(e.clone(), Cause::Nothing),
            Ok(v) => {
                self.stage = Stage::Finding;
                let files = join(&list_names(v), " ");
                let log = vec![
                    LogEntry::Log(
                        cat5(
                            "starting sync from ",
                            self.src.as_str(),
                            " (files: ",
                            files.as_str(),
                            ")",
                        ),
                    ),
                ];
                proof {
                    assert(log_views(log@) =~= on_listed(
                        old(self).source(),
                        old(self)@,
                        *names,
                    ).log);
                }
                NetworkStep { log, action: NetworkAction::FindEntries }
            },
        }
    }

    fn found(&mut self, found: &Result<Vec<SourceEntry>, FindFailure>) -> (r: NetworkStep)
        requires
            old(self).wf(),
        ensures
            final(self).wf(),
            final(self).source() == old(self).source(),
            final(self)@ == on_found(old(self).source(), old(self)@, *found).to,
            shows(r, on_found(old(self).source(), old(self)@, *found)),
            match *found {
                Ok(entries) => entries_decode(entries@),
                Err(_) => true,
            },
    {
        match found {
            Err(FindFailure::Opening(e)) => {
                let msg = cat("failed to read ", self.src.as_str());
                self.stop(msg, Cause::Text(e.clone()))
            },
            Err(FindFailure::Walking(e)) => self.stop(e.clone(), Cause::Nothing),
            Ok(entries) => {
                let order = statefiles_to_apply(entries);
                let mut names: Vec<String> = Vec::new();
                let mut i: usize = 0;
                let ghost all = names_at(entries@, positions(order@));
                proof {
                    assert(texts(names@) =~= all.take(0));
                }
                while i < order.len()
                    invariant
                        i <= order.len(),
                        all == names_at(entries@, positions(order@)),
                        forall|j: int|
                            0 <= j < order.len() ==> (#[trigger] order@[j]) < entries.len(),
                        texts(names@) == all.take(i as int),
                        forall|j: int|
                            0 <= j < i ==> decodes(entries@[(#[trigger] order@[j]) as int].name@),
                    decreases order.len() - i,
                {
                    let name = from_utf8_lossy(entries[order[i]].name.as_slice());
                    proof {
                        lemma_texts_push(names@, name);
                        assert(positions(order@)[i as int] == order@[i as int] as int);
                        assert(all.take(i + 1) =~= all.take(i as int).push(name@));
                    }
                    names.push(name);
                    i += 1;
                }
                proof {
                    assert(all.take(i as int) =~= all);
                    assert(texts(names@).len() == names@.len());
                    assert forall|k: int|
                        0 <= k < statefiles_in_order(entries@).len() implies decodes(
                        entries@[#[trigger] statefiles_in_order(entries@)[k]].name@,
                    ) by {
                        assert(positions(order@)[k] == order@[k] as int);
                    }
                }
                self.order = order;
                self.names = names;
                self.applied = 0;
                self.go_on(no_log())
            },
        }
    }

    /// Goes on with what reading a document as a desired state came to.
    pub fn parsed(
        &mut self,
        parsed: Result<nmstate::NetworkState, nmstate::NmstateError>,
    ) -> (r: NetworkStep)
        requires
            old(self).wf(),
            old(self)@.stage == Stage::Reading,
        ensures
            final(self).wf(),
            final(self).source() == old(self).source(),
            final(self)@ == on_parsed(old(self)@, parsed).to,
            shows(r, on_parsed(old(self)@, parsed)),
    {
        match parsed {
            Ok(state) => {
                self.stage = Stage::Applying;
                NetworkStep { log: no_log(), action: NetworkAction::Apply(state) }
            },
            Err(e) => {
                let msg = cat3(
                    "failed to parse ",
                    self.names[self.applied].as_str(),
                    " as an nmstate desired state",
                );
                self.stop(msg, Cause::Nmstate(e))
            },
        }
    }

    fn unreadable(&mut self, e: String) -> (r: NetworkStep)
        requires
            old(self).wf(),
            old(self)@.stage == Stage::Reading,
        ensures
            final(self).wf(),
            final(self).source() == old(self).source(),
            final(self)@ == unreadable(old(self).source(), old(self)@, e@).to,
            shows(r, unreadable(old(self).source(), old(self)@, e@)),
    {
        let path = join_path(self.src.as_str(), self.names[self.applied].as_str());
        let msg = cat("failed to read ", path.as_str());
        self.stop(msg, Cause::Text(e))
    }

    fn done_with(&mut self, applied: Result<(), nmstate::NmstateError>) -> (r: NetworkStep)
        requires
            old(self).wf(),
            old(self)@.stage == Stage::Applying,
        ensures
            final(self).wf(),
            final(self).source() == old(self).source(),
            final(self)@ == on_applied(old(self)@, applied).to,
            shows(r, on_applied(old(self)@, applied)),
    {
        match applied {
            Err(e) => {
                let msg = cat("failed to apply ", self.names[self.applied].as_str());
                self.stop(msg, Cause::Nmstate(e))
            },
            Ok(_) => {
                let msg = cat3("applied ", self.names[self.applied].as_str(), " successfully");
                let log = vec![LogEntry::Log(msg)];
                proof {
                    assert(log_views(log@) =~= seq![LogView::Log(msg@)]);
                    assert(self.applied < self.names.len());
                }
                self.applied = self.applied + 1;
                self.go_on(log)
            },
        }
    }

    /// Whether an event is one that the sync waits for.
    pub fn expects(&self, event: &NetworkEvent) -> (r: bool)
        ensures
            r == awaits(self@.stage, *event),
    {
        match (self.stage, event) {
            (Stage::Probing, NetworkEvent::Probed(_)) => true,
            (Stage::Listing, NetworkEvent::Listed(_)) => true,
            (Stage::Finding, NetworkEvent::Found(_)) => true,
            (Stage::Reading, NetworkEvent::Content(_)) => true,
            (Stage::Applying, NetworkEvent::Applied(_)) => true,
            _ => false,
        }
    }

    /// Takes in what came of the last step. A document that was read is read
    /// as a desired state here.
    pub fn advance(&mut self, event: NetworkEvent) -> (r: NetworkStep)
        requires
            old(self).wf(),
            awaits(old(self)@.stage, event),
        ensures
            final(self).wf(),
            final(self).source() == old(self).source(),
            follows(
                old(self).source(),
                old(self)@,
                event,
                (Move { to: final(self)@, log: log_views(r.log@), action: r.action@ }),
            ),
            event_decodes(event),
    {
        match event {
            NetworkEvent::Probed(has_entry) => self.probed(has_entry),
            NetworkEvent::Listed(names) => self.listed(&names),
            NetworkEvent::Found(found) => self.found(&found),
            NetworkEvent::Content(Err(e)) => self.unreadable(e),
            NetworkEvent::Content(Ok(yaml)) => {
                let parsed = read_desired_state(yaml.as_str());
                self.parsed(parsed)
            },
            NetworkEvent::Applied(r) => self.done_with(r),
        }
    }
}

// ---------------------------------------------------------------------------
// Laws
// ---------------------------------------------------------------------------

/// The steps of a sync: it starts with the first one, and each of the others
/// follows from the one before it and the event that was handed in.
pub open spec fn is_run(src: Seq<char>, events: Seq<NetworkEvent>, moves: Seq<Move>) -> bool {
    &&& moves.len() == events.len() + 1
    &&& moves[0] == first_move()
    &&& forall|k: int|
        0 <= k < events.len() ==> {
            &&& awaits(moves[k].to.stage, #[trigger] events[k])
            &&& follows(src, moves[k].to, events[k], moves[k + 1])
        }
}

/// A sync of an empty source, or of one that cannot be read, succeeds at once
/// and applies nothing.
pub proof fn law_empty_source_is_a_noop(
    src: Seq<char>,
    events: Seq<NetworkEvent>,
    moves: Seq<Move>,
)
    requires
        is_run(src, events, moves),
        events.len() > 0,
        events[0] matches NetworkEvent::Probed(has_entry) && has_entry != Some(true),
    ensures
        events.len() == 1,
        moves[1].action == ActionView::Finish(None),
{
    assert(awaits(moves[0].to.stage, events[0]));
    if events.len() > 1 {
        assert(awaits(moves[1].to.stage, events[1]));
    }
}

/// Nothing is waited for once the sync has ended.
pub proof fn law_finished_is_final(
    src: Seq<char>,
    events: Seq<NetworkEvent>,
    moves: Seq<Move>,
    k: int,
)
    requires
        is_run(src, events, moves),
        0 <= k < moves.len(),
        moves[k].action is Finish,
    ensures
        k == moves.len() - 1,
        moves[k].to.stage == Stage::Done,
{
    if k > 0 {
        assert(follows(src, moves[k - 1].to, events[k - 1], moves[k]));
        assert(awaits(moves[k - 1].to.stage, events[k - 1]));
    }
    if k < events.len() {
        assert(awaits(moves[k].to.stage, events[k]));
    }
}

/// Once the entries are known, the documents and their order stay as they are.
proof fn lemma_documents(
    src: Seq<char>,
    events: Seq<NetworkEvent>,
    moves: Seq<Move>,
    entries: Vec<SourceEntry>,
    k: int,
)
    requires
        is_run(src, events, moves),
        events.len() > 2,
        events[2] == NetworkEvent::Found(Ok(entries)),
        3 <= k < moves.len(),
    ensures
        ({
            let p = moves[k].to;
            &&& p.order == statefiles_in_order(entries@)
            &&& p.names == names_at(entries@, p.order)
            &&& p.stage == Stage::Reading || p.stage == Stage::Applying || p.stage == Stage::Done
            &&& p.stage == Stage::Reading ==> k == 3 + 2 * p.applied && p.applied < p.names.len()
                && moves[k].action == ActionView::Read(p.order[p.applied as int])
            &&& p.stage == Stage::Applying ==> k == 4 + 2 * p.applied && p.applied < p.names.len()
                && moves[k].action is Apply
            &&& moves[k].action == ActionView::Finish(None) ==> p.applied == p.names.len() && k == 3
                + 2 * p.applied
        }),
    decreases k,
{
    assert(awaits(moves[k - 1].to.stage, events[k - 1]));
    assert(follows(src, moves[k - 1].to, events[k - 1], moves[k - 1 + 1]));
    if k > 3 {
        lemma_documents(src, events, moves, entries, k - 1);
    }
}

/// Whether a document has been applied.
pub open spec fn is_applied(e: NetworkEvent) -> bool {
    e matches NetworkEvent::Applied(r) && r is Ok
}

/// A sync that has not failed by the time it turns from document `j` has
/// applied it.
proof fn lemma_document_is_applied(
    src: Seq<char>,
    events: Seq<NetworkEvent>,
    moves: Seq<Move>,
    entries: Vec<SourceEntry>,
    j: int,
)
    requires
        is_run(src, events, moves),
        events.len() > 2,
        events[2] == NetworkEvent::Found(Ok(entries)),
        0 <= j,
        5 + 2 * j < moves.len(),
        moves[5 + 2 * j].action is Finish ==> moves[5 + 2 * j].action->Finish_0 is None,
    ensures
        moves[4 + 2 * j].action is Apply,
        is_applied(events[4 + 2 * j]),
{
    let k = 4 + 2 * j;
    lemma_documents(src, events, moves, entries, k);
    assert(awaits(moves[k].to.stage, events[k]));
    assert(follows(src, moves[k].to, events[k], moves[k + 1]));
}

/// The documents of desired state are read one after the other, in the order
/// of their names.
pub proof fn law_documents_are_taken_in_order(
    src: Seq<char>,
    events: Seq<NetworkEvent>,
    moves: Seq<Move>,
    entries: Vec<SourceEntry>,
    i: int,
)
    requires
        is_run(src, events, moves),
        events.len() > 2,
        events[2] == NetworkEvent::Found(Ok(entries)),
        0 <= i,
        3 + 2 * i < moves.len(),
        !(moves[3 + 2 * i].action is Finish),
    ensures
        i < statefiles_in_order(entries@).len(),
        moves[3 + 2 * i].action == ActionView::Read(statefiles_in_order(entries@)[i]),
{
    let n = 3 + 2 * i;
    lemma_documents(src, events, moves, entries, n);
    assert(awaits(moves[n - 1].to.stage, events[n - 1]));
    assert(follows(src, moves[n - 1].to, events[n - 1], moves[n - 1 + 1]));
}

/// A document is read only after each one before it has been applied: the
/// first one that fails ends the sync.
pub proof fn law_documents_wait_for_each_other(
    src: Seq<char>,
    events: Seq<NetworkEvent>,
    moves: Seq<Move>,
    entries: Vec<SourceEntry>,
    i: int,
    j: int,
)
    requires
        is_run(src, events, moves),
        events.len() > 2,
        events[2] == NetworkEvent::Found(Ok(entries)),
        0 <= j < i,
        3 + 2 * i < moves.len(),
        !(moves[3 + 2 * i].action is Finish),
    ensures
        moves[4 + 2 * j].action is Apply,
        is_applied(events[4 + 2 * j]),
{
    if moves[5 + 2 * j].action is Finish {
        law_finished_is_final(src, events, moves, 5 + 2 * j);
    }
    lemma_document_is_applied(src, events, moves, entries, j);
}

/// A sync that found the entries and succeeded has applied every document
/// among them.
pub proof fn law_success_applies_everything(
    src: Seq<char>,
    events: Seq<NetworkEvent>,
    moves: Seq<Move>,
    entries: Vec<SourceEntry>,
    j: int,
)
    requires
        is_run(src, events, moves),
        events.len() > 2,
        events[2] == NetworkEvent::Found(Ok(entries)),
        moves.last().action == ActionView::Finish(None),
        0 <= j < statefiles_in_order(entries@).len(),
    ensures
        events.len() == 3 + 2 * statefiles_in_order(entries@).len(),
        moves[4 + 2 * j].action is Apply,
        is_applied(events[4 + 2 * j]),
{
    let n = moves.len() - 1;
    lemma_documents(src, events, moves, entries, n);
    assert(moves.last() == moves[n]);
    if moves[5 + 2 * j].action is Finish {
        law_finished_is_final(src, events, moves, 5 + 2 * j);
    }
    lemma_document_is_applied(src, events, moves, entries, j);
}

/// Of two documents that are read, the one that is read first has the name that
/// comes first in a dictionary. Each of them is a file whose name ends in
/// `.yml` or `.yaml`.
pub proof fn law_documents_are_read_by_name(
    src: Seq<char>,
    events: Seq<NetworkEvent>,
    moves: Seq<Move>,
    entries: Vec<SourceEntry>,
    i: int,
    j: int,
    x: int,
    y: int,
)
    requires
        is_run(src, events, moves),
        events.len() > 2,
        events[2] == NetworkEvent::Found(Ok(entries)),
        3 <= i <= j < moves.len(),
        moves[i].action == ActionView::Read(x),
        moves[j].action == ActionView::Read(y),
    ensures
        0 <= x < entries@.len(),
        name_le(entries@[x].name@, entries@[y].name@),
        entries@[x].is_file,
        entries@[x].name@[0] != 0x2e,
        ends_in(entries@[x].name@, seq![0x2eu8, 0x79u8, 0x6du8, 0x6cu8]) || ends_in(
            entries@[x].name@,
            seq![0x2eu8, 0x79u8, 0x61u8, 0x6du8, 0x6cu8],
        ),
{
    lemma_read(src, events, moves, i);
    lemma_read(src, events, moves, j);
    lemma_documents(src, events, moves, entries, i);
    lemma_documents(src, events, moves, entries, j);
    let all = statefiles_in_order(entries@);
    let (a, b) = (moves[i].to.applied as int, moves[j].to.applied as int);
    assert(a <= b);
    law_statefiles_are_applied_by_name(entries@, a, b);
    lemma_statefiles_are_positions(entries@, a);
    law_all_statefiles_are_applied(entries@, x);
    assert(all.contains(all[a]));
    law_statefiles_end_in_yml_or_yaml(entries@[x]);
}

/// Only a stage that reads asks for a document.
proof fn lemma_read(src: Seq<char>, events: Seq<NetworkEvent>, moves: Seq<Move>, k: int)
    requires
        is_run(src, events, moves),
        0 < k < moves.len(),
        moves[k].action is Read,
    ensures
        moves[k].to.stage == Stage::Reading,
{
    assert(awaits(moves[k - 1].to.stage, events[k - 1]));
    assert(follows(src, moves[k - 1].to, events[k - 1], moves[k - 1 + 1]));
}

/// A sync that found the entries and succeeded has read and applied every file
/// whose name ends in `.yml` or `.yaml` and does not start with a dot.
pub proof fn law_success_applies_every_document(
    src: Seq<char>,
    events: Seq<NetworkEvent>,
    moves: Seq<Move>,
    entries: Vec<SourceEntry>,
    x: int,
)
    requires
        is_run(src, events, moves),
        events.len() > 2,
        events[2] == NetworkEvent::Found(Ok(entries)),
        moves.last().action == ActionView::Finish(None),
        0 <= x < entries@.len(),
        entries@[x].is_file,
        entries@[x].name@.len() > 0 && entries@[x].name@[0] != 0x2e,
        ends_in(entries@[x].name@, seq![0x2eu8, 0x79u8, 0x6du8, 0x6cu8]) || ends_in(
            entries@[x].name@,
            seq![0x2eu8, 0x79u8, 0x61u8, 0x6du8, 0x6cu8],
        ),
    ensures
        exists|k: int|
            3 <= k < events.len() - 1 && #[trigger] moves[k].action == ActionView::Read(x)
                && moves[k + 1].action is Apply && is_applied(events[k + 1]),
{
    law_statefiles_end_in_yml_or_yaml(entries@[x]);
    law_all_statefiles_are_applied(entries@, x);
    let all = statefiles_in_order(entries@);
    let j = choose|j: int| 0 <= j < all.len() && all[j] == x;
    law_success_applies_everything(src, events, moves, entries, j);
    let k = 3 + 2 * j;
    if moves[k].action is Finish {
        law_finished_is_final(src, events, moves, k);
    }
    law_documents_are_taken_in_order(src, events, moves, entries, j);
    assert(moves[k].action == ActionView::Read(x));
}

/// What is applied is what the document that was read last reads as, and it is
/// applied at once.
pub proof fn law_what_was_read_is_applied(
    src: Seq<char>,
    events: Seq<NetworkEvent>,
    moves: Seq<Move>,
    k: int,
    state: nmstate::NetworkState,
)
    requires
        is_run(src, events, moves),
        0 <= k < moves.len(),
        moves[k].action == ActionView::Apply(state),
    ensures
        k > 0,
        events[k - 1] matches NetworkEvent::Content(Ok(yaml)) && reads_as(yaml@, Ok(state)),
        moves[k - 1].action is Read,
{
    assert(awaits(moves[k - 1].to.stage, events[k - 1]));
    assert(follows(src, moves[k - 1].to, events[k - 1], moves[k - 1 + 1]));
    if k > 1 {
        assert(awaits(moves[k - 2].to.stage, events[k - 2]));
        assert(follows(src, moves[k - 2].to, events[k - 2], moves[k - 2 + 1]));
    }
}

/// What cannot be listed, found, read or applied ends the sync in failure, and
/// the failure says why, with the name of the document where there is one.
pub proof fn law_failures_are_told(
    src: Seq<char>,
    events: Seq<NetworkEvent>,
    moves: Seq<Move>,
    entries: Vec<SourceEntry>,
    k: int,
    x: int,
)
    requires
        is_run(src, events, moves),
        0 <= k < events.len(),
    ensures
        ({
            let told = |message: Seq<char>, cause: CauseView|
                moves[k + 1].action == ActionView::Finish(Some(FailureView { message, cause }));
            &&& (events[k] matches NetworkEvent::Listed(Err(e)) ==> told(e@, CauseView::Nothing))
            &&& (events[k] matches NetworkEvent::Found(Err(FindFailure::Opening(e))) ==> told(
                "failed to read "@ + src,
                CauseView::Text(e@),
            ))
            &&& (events[k] matches NetworkEvent::Found(Err(FindFailure::Walking(e))) ==> told(
                e@,
                CauseView::Nothing,
            ))
        }),
        events.len() > 2 && events[2] == NetworkEvent::Found(Ok(entries)) && k >= 3 ==> {
            let name = utf8_lossy(entries@[x].name@);
            let told = |message: Seq<char>, cause: CauseView|
                moves[k + 1].action == ActionView::Finish(Some(FailureView { message, cause }));
            &&& (events[k] matches NetworkEvent::Content(Err(e)) ==> (moves[k].action
                == ActionView::Read(x) ==> told(
                "failed to read "@ + path_in(src, name),
                CauseView::Text(e@),
            )))
            &&& (events[k] matches NetworkEvent::Content(Ok(yaml)) ==> {
                &&& is_desired_state(yaml@) ==> moves[k + 1].action is Apply
                &&& !is_desired_state(yaml@) && moves[k].action == ActionView::Read(x) ==> (
                moves[k + 1].action matches ActionView::Finish(Some(f)) && f.message
                    == "failed to parse "@ + name + " as an nmstate desired state"@
                    && f.cause is Nmstate)
            })
            &&& (events[k] matches NetworkEvent::Applied(Err(e)) ==> (moves[k - 1].action
                == ActionView::Read(x) ==> told("failed to apply "@ + name, CauseView::Nmstate(e))))
        },
{
    assert(awaits(moves[k].to.stage, events[k]));
    assert(follows(src, moves[k].to, events[k], moves[k + 1]));
    if events.len() > 2 && events[2] == NetworkEvent::Found(Ok(entries)) && k >= 3 {
        lemma_documents(src, events, moves, entries, k);
        if k > 3 {
            lemma_documents(src, events, moves, entries, k - 1);
            assert(awaits(moves[k - 1].to.stage, events[k - 1]));
            assert(follows(src, moves[k - 1].to, events[k - 1], moves[k - 1 + 1]));
        }
    }
}

/// Each document is announced by name before it is read and told to be applied
/// once it is, and the end of the sync is told after the last one.
pub proof fn law_progress_is_logged(
    src: Seq<char>,
    events: Seq<NetworkEvent>,
    moves: Seq<Move>,
    entries: Vec<SourceEntry>,
    k: int,
    x: int,
    y: int,
)
    requires
        is_run(src, events, moves),
        events.len() > 2,
        events[2] == NetworkEvent::Found(Ok(entries)),
        3 <= k < moves.len(),
    ensures
        moves[k].action == ActionView::Read(x) ==> moves[k].log.len() > 0 && moves[k].log.last()
            == LogView::Log("applying nmstate state "@ + utf8_lossy(entries@[x].name@)),
        moves[k].action == ActionView::Finish(None) ==> moves[k].log.len() > 0
            && moves[k].log.last() == LogView::Log("sync complete"@),
        k >= 5 && is_applied(events[k - 1]) && moves[k - 2].action == ActionView::Read(y)
            ==> moves[k].log.len() == 2 && moves[k].log[0] == LogView::Log(
            "applied "@ + utf8_lossy(entries@[y].name@) + " successfully"@,
        ),
{
    lemma_documents(src, events, moves, entries, k);
    assert(awaits(moves[k - 1].to.stage, events[k - 1]));
    assert(follows(src, moves[k - 1].to, events[k - 1], moves[k - 1 + 1]));
    if k > 3 {
        lemma_documents(src, events, moves, entries, k - 1);
    }
    if k >= 5 {
        lemma_documents(src, events, moves, entries, k - 2);
        assert(awaits(moves[k - 2].to.stage, events[k - 2]));
        assert(follows(src, moves[k - 2].to, events[k - 2], moves[k - 2 + 1]));
    }
}

/// A sync says what it starts from, or that there is nothing to do.
pub proof fn law_start_is_logged(
    src: Seq<char>,
    events: Seq<NetworkEvent>,
    moves: Seq<Move>,
    k: int,
)
    requires
        is_run(src, events, moves),
        0 <= k < events.len(),
    ensures
        events[k] matches NetworkEvent::Probed(has_entry) ==> {
            &&& has_entry != Some(true) ==> moves[k + 1].log == seq![
                LogView::Log(src + " is empty or not mounted, nothing to sync"@),
            ]
            &&& has_entry == Some(true) ==> moves[k + 1].action == ActionView::ListSource
        },
        events[k] matches NetworkEvent::Listed(Ok(names)) ==> moves[k + 1].action
            == ActionView::FindEntries && moves[k + 1].log == seq![
            LogView::Log(
                "starting sync from "@ + src + " (files: "@ + join_of(
                    sorted_texts(name_texts(names@)),
                    " "@,
                ) + ")"@,
            ),
        ],
{
    assert(awaits(moves[k].to.stage, events[k]));
    assert(follows(src, moves[k].to, events[k], moves[k + 1]));
}

/// A step asks for exactly what its move says: the same document is read, the
/// same state is applied, and the sync ends exactly where the move does.
pub proof fn law_step_is_its_move(step: NetworkStep, m: Move, i: int)
    requires
        shows(step, m),
    ensures
        step.log@.len() == m.log.len(),
        0 <= i < m.log.len() ==> step.log@[i]@ == m.log[i],
        step.action matches NetworkAction::Read(k) ==> m.action == ActionView::Read(k as int),
        step.action matches NetworkAction::Apply(state) ==> m.action == ActionView::Apply(state),
        (step.action matches NetworkAction::Finish(Ok(_))) <==> m.action == ActionView::Finish(
            None,
        ),
        step.action matches NetworkAction::Finish(Err(f)) ==> m.action is Finish
            && m.action->Finish_0 is Some && m.action->Finish_0->0.message == f.message@,
{
    assert(log_views(step.log@).len() == step.log@.len());
}

/// A sync waits for what answers its last action, and for nothing else; once it
/// has ended it waits for nothing.
pub proof fn law_events_answer_actions(
    src: Seq<char>,
    events: Seq<NetworkEvent>,
    moves: Seq<Move>,
    k: int,
    e: NetworkEvent,
)
    requires
        is_run(src, events, moves),
        0 <= k < moves.len(),
    ensures
        awaits(moves[k].to.stage, e) <==> match moves[k].action {
            ActionView::ProbeSource => e is Probed,
            ActionView::ListSource => e is Listed,
            ActionView::FindEntries => e is Found,
            ActionView::Read(_) => e is Content,
            ActionView::Apply(_) => e is Applied,
            ActionView::Finish(_) => false,
        },
{
    if k > 0 {
        assert(awaits(moves[k - 1].to.stage, events[k - 1]));
        assert(follows(src, moves[k - 1].to, events[k - 1], moves[k - 1 + 1]));
    }
}

} // verus!
