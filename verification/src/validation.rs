//! Checking a configuration with the management daemon before it is applied.
//!
//! The dialogue on the daemon's vty socket enters configuration mode, feeds
//! every line, and then always sends `abort`, so that nothing of it is ever
//! committed: that is what makes it a check.

use vstd::prelude::*;
use crate::outside::{debug_quoted, in_quotes, is_plain, quote};
use crate::text::{
    all_white, cat, cat4, chars_of, in_class, is_white, law_last_line_needs_no_line_feed,
    law_lines_end_at_line_feeds, lemma_span_is, lemma_texts_push, lines, lines_of, texts, trim,
    trim_end_of, trim_of, Class,
};
use crate::vty::VtyResponse;

verus! {

/// Whether a line is a command: neither blank nor a comment.
pub open spec fn is_command(line: Seq<char>) -> bool {
    let t = trim_of(line);
    t.len() > 0 && t[0] != '!' && t[0] != '#'
}

/// The commands among some lines, in their order.
pub open spec fn commands_in(lines: Seq<Seq<char>>) -> Seq<Seq<char>>
    decreases lines.len(),
{
    if lines.len() == 0 {
        seq![]
    } else if is_command(lines.last()) {
        commands_in(lines.drop_last()).push(lines.last())
    } else {
        commands_in(lines.drop_last())
    }
}

/// The commands of a configuration.
pub open spec fn commands_of(content: Seq<char>) -> Seq<Seq<char>> {
    commands_in(lines_of(content))
}

fn command(line: &str) -> (r: bool)
    ensures
        r == is_command(line@),
{
    let chars = chars_of(trim(line).as_str());
    chars.len() > 0 && chars[0] != '!' && chars[0] != '#'
}

fn commands(content: &str) -> (r: Vec<String>)
    ensures
        texts(r@) == commands_of(content@),
{
    let all = lines(content);
    let mut out: Vec<String> = Vec::new();
    let mut i: usize = 0;
    let ghost ls = lines_of(content@);
    while i < all.len()
        invariant
            i <= all.len(),
            texts(all@) == ls,
            texts(out@) == commands_in(ls.take(i as int)),
        decreases all.len() - i,
    {
        proof {
            assert(texts(all@)[i as int] == all@[i as int]@);
            assert(ls.take(i + 1).drop_last() =~= ls.take(i as int));
            assert(ls.take(i + 1).last() == all@[i as int]@);
        }
        if command(all[i].as_str()) {
            let line = all[i].clone();
            proof {
                lemma_texts_push(out@, line);
            }
            out.push(line);
        }
        i += 1;
    }
    proof {
        assert(ls.take(i as int) =~= ls);
    }
    out
}

/// What came back for a command.
pub enum Reply {
    Accepted,
    Rejected(Seq<char>),
    Broken(Seq<char>),
}

/// What came back: an answer, or the error of the socket.
pub open spec fn reply_of(r: Result<VtyResponse, String>) -> Reply {
    match r {
        Ok(resp) => if resp.status == 0 {
            Reply::Accepted
        } else {
            Reply::Rejected(resp.output@)
        },
        Err(e) => Reply::Broken(e@),
    }
}

/// How far a dialogue has come.
#[derive(Clone, Copy, PartialEq, Eq, Structural)]
pub enum Phase {
    /// `enable` has been sent.
    Enabling,
    /// `configure terminal` has been sent.
    Configuring,
    /// A line of the configuration has been sent.
    Feeding,
    /// `abort` has been sent.
    Aborting,
    /// It is over.
    Done,
}

/// A dialogue: its phase, how many lines have been sent, and what is wrong
/// with the configuration, if that is known.
pub struct Dialogue {
    pub phase: Phase,
    pub fed: nat,
    pub failure: Option<Seq<char>>,
}

/// The dialogue at its start.
pub open spec fn opening() -> Dialogue {
    Dialogue { phase: Phase::Enabling, fed: 0, failure: None }
}

/// Goes on to the next line, or to `abort` after the last one.
pub open spec fn feed(commands: Seq<Seq<char>>, fed: nat) -> Dialogue {
    if fed < commands.len() {
        Dialogue { phase: Phase::Feeding, fed: fed + 1, failure: None }
    } else {
        Dialogue { phase: Phase::Aborting, fed, failure: None }
    }
}

/// Ends a dialogue that did not get into configuration mode.
pub open spec fn refused(what: Seq<char>, reply: Reply) -> Dialogue {
    Dialogue {
        phase: Phase::Done,
        fed: 0,
        failure: match reply {
            Reply::Rejected(output) => Some(what + " failed: "@ + output),
            _ => Some(what),
        },
    }
}

/// What is wrong with a line.
pub open spec fn complaint(line: Seq<char>, reply: Reply) -> Option<Seq<char>> {
    match reply {
        Reply::Accepted => None,
        Reply::Rejected(output) => Some("line "@ + debug_quoted(line) + " rejected: "@ + output),
        Reply::Broken(e) => Some("line "@ + debug_quoted(line) + ": vty error: "@ + e),
    }
}

/// What is wrong with a line that is quoted as it is.
pub open spec fn plain_complaint(line: Seq<char>, reply: Reply) -> Option<Seq<char>> {
    match reply {
        Reply::Accepted => None,
        Reply::Rejected(output) => Some("line "@ + in_quotes(line) + " rejected: "@ + output),
        Reply::Broken(e) => Some("line "@ + in_quotes(line) + ": vty error: "@ + e),
    }
}

/// The dialogue after a reply. The reply to `abort` does not matter.
pub open spec fn next(commands: Seq<Seq<char>>, d: Dialogue, reply: Reply) -> Dialogue {
    match d.phase {
        Phase::Enabling => if reply is Accepted {
            Dialogue { phase: Phase::Configuring, fed: 0, failure: None }
        } else {
            refused("vty: enable"@, reply)
        },
        Phase::Configuring => if reply is Accepted {
            feed(commands, 0)
        } else {
            refused("vty: configure terminal"@, reply)
        },
        Phase::Feeding => if reply is Accepted {
            feed(commands, d.fed)
        } else {
            Dialogue {
                phase: Phase::Aborting,
                fed: d.fed,
                failure: complaint(commands[d.fed - 1], reply),
            }
        },
        Phase::Aborting => Dialogue { phase: Phase::Done, ..d },
        Phase::Done => d,
    }
}

/// The command that a dialogue has just sent.
pub open spec fn command_of(commands: Seq<Seq<char>>, d: Dialogue) -> Option<Seq<char>> {
    match d.phase {
        Phase::Enabling => Some("enable"@),
        Phase::Configuring => Some("configure terminal"@),
        Phase::Feeding => Some(commands[d.fed - 1]),
        Phase::Aborting => Some("abort"@),
        Phase::Done => None,
    }
}

/// What to do next.
pub enum ValidationStep {
    /// Send a command and hand in what comes back.
    Send(String),
    /// Stop: the configuration is fine, or this is wrong with it.
    Finished(Result<(), String>),
}

/// A step says what the dialogue has come to.
pub open spec fn tells(step: ValidationStep, commands: Seq<Seq<char>>, d: Dialogue) -> bool {
    match step {
        ValidationStep::Send(c) => command_of(commands, d) == Some(c@),
        ValidationStep::Finished(r) => d.phase == Phase::Done && (match r {
            Ok(_) => d.failure is None,
            Err(e) => d.failure == Some(e@),
        }),
    }
}

/// The check of one configuration.
pub struct Validation {
    lines: Vec<String>,
    phase: Phase,
    fed: usize,
    failure: Option<String>,
}

impl View for Validation {
    type V = Dialogue;

    closed spec fn view(&self) -> Dialogue {
        Dialogue {
            phase: self.phase,
            fed: self.fed as nat,
            failure: match self.failure {
                Some(s) => Some(s@),
                None => None,
            },
        }
    }
}

impl Validation {
    /// The commands of the configuration that is checked.
    pub closed spec fn commands(self) -> Seq<Seq<char>> {
        texts(self.lines@)
    }

    /// The dialogue is at a command that exists.
    pub closed spec fn wf(self) -> bool {
        &&& self.fed <= self.lines@.len()
        &&& self.phase == Phase::Feeding ==> self.fed > 0
    }

    /// Starts checking a configuration.
    pub fn begin(content: &str) -> (r: (Validation, ValidationStep))
        ensures
            r.0.wf(),
            r.0.commands() == commands_of(content@),
            r.0@ == opening(),
            tells(r.1, r.0.commands(), r.0@),
    {
        let v = Validation {
            lines: commands(content),
            phase: Phase::Enabling,
            fed: 0,
            failure: None,
        };
        (v, ValidationStep::Send("enable".to_owned()))
    }

    fn feed_next(&mut self) -> (r: ValidationStep)
        requires
            old(self).wf(),
        ensures
            final(self).wf(),
            final(self).commands() == old(self).commands(),
            final(self)@ == feed(old(self).commands(), old(self)@.fed),
            tells(r, final(self).commands(), final(self)@),
    {
        self.failure = None;
        if self.fed < self.lines.len() {
            let line = self.lines[self.fed].clone();
            self.phase = Phase::Feeding;
            self.fed = self.fed + 1;
            proof {
                assert(texts(self.lines@)[self.fed - 1] == line@);
            }
            ValidationStep::Send(line)
        } else {
            self.phase = Phase::Aborting;
            ValidationStep::Send("abort".to_owned())
        }
    }

    fn refuse(&mut self, what: &str, reply: &Result<VtyResponse, String>) -> (r: ValidationStep)
        requires
            old(self).wf(),
            !(reply_of(*reply) is Accepted),
        ensures
            final(self).wf(),
            final(self).commands() == old(self).commands(),
            final(self)@ == refused(what@, reply_of(*reply)),
            tells(r, final(self).commands(), final(self)@),
    {
        let mut msg = what.to_owned();
        match reply {
            Ok(resp) => {
                msg.append(" failed: ");
                msg.append(resp.output.as_str());
            },
            Err(_) => {},
        }
        self.phase = Phase::Done;
        self.fed = 0;
        self.failure = Some(msg.clone());
        ValidationStep::Finished(Err(msg))
    }

    /// Takes in what came back for the last command.
    pub fn answer(&mut self, reply: &Result<VtyResponse, String>) -> (r: ValidationStep)
        requires
            old(self).wf(),
        ensures
            final(self).wf(),
            final(self).commands() == old(self).commands(),
            final(self)@ == next(old(self).commands(), old(self)@, reply_of(*reply)),
            tells(r, final(self).commands(), final(self)@),
            ({
                let line = old(self).commands()[old(self)@.fed - 1];
                old(self)@.phase == Phase::Feeding && is_plain(line) ==> final(self)@.failure
                    == plain_complaint(line, reply_of(*reply))
            }),
    {
        let accepted = match reply {
            Ok(resp) => resp.success(),
            Err(_) => false,
        };
        match self.phase {
            Phase::Enabling => {
                if accepted {
                    self.phase = Phase::Configuring;
                    self.fed = 0;
                    self.failure = None;
                    ValidationStep::Send("configure terminal".to_owned())
                } else {
                    self.refuse("vty: enable", reply)
                }
            },
            Phase::Configuring => {
                if accepted {
                    self.fed = 0;
                    self.feed_next()
                } else {
                    self.refuse("vty: configure terminal", reply)
                }
            },
            Phase::Feeding => {
                if accepted {
                    self.feed_next()
                } else {
                    let line = self.lines[self.fed - 1].clone();
                    let quoted = quote(line.as_str());
                    proof {
                        assert(texts(self.lines@)[self.fed - 1] == line@);
                    }
                    let msg = match reply {
                        Ok(resp) => cat4(
                            "line ",
                            quoted.as_str(),
                            " rejected: ",
                            resp.output.as_str(),
                        ),
                        Err(e) => cat4("line ", quoted.as_str(), ": vty error: ", e.as_str()),
                    };
                    self.failure = Some(msg);
                    self.phase = Phase::Aborting;
                    ValidationStep::Send("abort".to_owned())
                }
            },
            Phase::Aborting => {
                self.phase = Phase::Done;
                self.outcome()
            },
            Phase::Done => self.outcome(),
        }
    }

    fn outcome(&self) -> (r: ValidationStep)
        requires
            self@.phase == Phase::Done,
        ensures
            tells(r, self.commands(), self@),
    {
        match &self.failure {
            Some(msg) => ValidationStep::Finished(Err(msg.clone())),
            None => ValidationStep::Finished(Ok(())),
        }
    }
}

/// The error when a configuration cannot be read.
pub fn read_failed(path: &str) -> (r: String)
    ensures
        r@ == "failed to read "@ + path@,
{
    cat("failed to read ", path)
}

/// The error when the daemon's socket cannot be connected to.
pub fn connect_failed(path: &str) -> (r: String)
    ensures
        r@ == "failed to connect to "@ + path@,
{
    cat("failed to connect to ", path)
}

// ---------------------------------------------------------------------------
// Laws
// ---------------------------------------------------------------------------

/// The dialogue after some replies.
pub open spec fn after(commands: Seq<Seq<char>>, replies: Seq<Reply>) -> Dialogue
    decreases replies.len(),
{
    if replies.len() == 0 {
        opening()
    } else {
        next(commands, after(commands, replies.drop_last()), replies.last())
    }
}

/// The first `n` replies were all of acceptance.
pub open spec fn accepted(replies: Seq<Reply>, n: int) -> bool {
    n <= replies.len() && forall|i: int| 0 <= i < n ==> (#[trigger] replies[i]) is Accepted
}

/// What a dialogue's phase tells of the replies so far.
spec fn consistent(commands: Seq<Seq<char>>, replies: Seq<Reply>) -> bool {
    let d = after(commands, replies);
    let n = replies.len() as int;
    let c = commands.len() as int;
    match d.phase {
        Phase::Enabling => n == 0,
        Phase::Configuring => n == 1 && accepted(replies, 1),
        Phase::Feeding => {
            &&& n == d.fed + 1
            &&& 0 < d.fed <= c
            &&& accepted(replies, n)
            &&& d.failure is None
        },
        Phase::Aborting => {
            &&& n >= 2
            &&& accepted(replies, 2)
            &&& d.fed <= c
            &&& d.failure is None ==> n == c + 2 && accepted(replies, n)
            &&& d.failure is Some ==> n == d.fed + 2 && !(replies[n - 1] is Accepted)
        },
        Phase::Done => {
            &&& n >= 1
            &&& !(replies[0] is Accepted) || (n >= 2 && !(replies[1] is Accepted)) || exists|k: int|
                2 <= k < n && (#[trigger] after(commands, replies.take(k))).phase
                    == Phase::Aborting
            &&& d.failure is None <==> n >= c + 3 && accepted(replies, c + 2)
        },
    }
}

proof fn lemma_accepted_prefix(replies: Seq<Reply>, m: int, n: int)
    requires
        0 <= n <= m <= replies.len(),
    ensures
        accepted(replies.take(m), n) <==> accepted(replies, n),
{
    let t = replies.take(m);
    if accepted(t, n) {
        assert forall|i: int| 0 <= i < n implies (#[trigger] replies[i]) is Accepted by {
            assert(t[i] is Accepted);
        }
    }
}

proof fn lemma_consistent(commands: Seq<Seq<char>>, replies: Seq<Reply>)
    ensures
        consistent(commands, replies),
    decreases replies.len(),
{
    if replies.len() > 0 {
        let before = replies.drop_last();
        let n = replies.len() as int;
        let c = commands.len() as int;
        lemma_consistent(commands, before);
        let d = after(commands, before);
        let e = after(commands, replies);
        assert(before =~= replies.take(n - 1));
        assert(replies[n - 1] == replies.last());
        if n - 1 >= 1 {
            lemma_accepted_prefix(replies, n - 1, 1);
        }
        if n - 1 >= 2 {
            lemma_accepted_prefix(replies, n - 1, 2);
        }
        lemma_accepted_prefix(replies, n - 1, n - 1);
        if c + 2 <= n - 1 {
            lemma_accepted_prefix(replies, n - 1, c + 2);
        }
        if d.phase == Phase::Aborting {
            assert(after(commands, replies.take(n - 1)).phase == Phase::Aborting);
            if d.failure is Some && accepted(replies, c + 2) {
                assert(replies[n - 2] is Accepted);
                assert(before[n - 2] == replies[n - 2]);
            }
        }
        if d.phase == Phase::Done {
            if replies[0] is Accepted && (n - 1 >= 2 ==> replies[1] is Accepted) {
                assert(before[0] is Accepted);
                assert(n - 1 >= 2 ==> before[1] == replies[1]);
                let k = choose|k: int|
                    2 <= k < n - 1 && (#[trigger] after(commands, before.take(k))).phase
                        == Phase::Aborting;
                let early = replies.take(k);
                assert(before.take(k) =~= early);
                lemma_consistent(commands, early);
                if accepted(replies, c + 2) {
                    if after(commands, early).failure is Some {
                        assert(early[k - 1] == replies[k - 1]);
                        assert(replies[k - 1] is Accepted);
                    }
                }
            }
        }
    }
}

/// Once configuration mode has been entered, a dialogue that is over has sent
/// `abort`, whatever came back on the way.
pub proof fn law_abort_is_always_sent(commands: Seq<Seq<char>>, replies: Seq<Reply>)
    requires
        accepted(replies, 2),
        after(commands, replies).phase == Phase::Done,
    ensures
        exists|k: int|
            2 <= k < replies.len() && command_of(
                commands,
                #[trigger] after(commands, replies.take(k)),
            ) == Some("abort"@),
{
    lemma_consistent(commands, replies);
    let k = choose|k: int|
        2 <= k < replies.len() && (#[trigger] after(commands, replies.take(k))).phase
            == Phase::Aborting;
    assert(command_of(commands, after(commands, replies.take(k))) == Some("abort"@));
}

/// After `abort` nothing is sent any more.
pub proof fn law_abort_is_sent_last(commands: Seq<Seq<char>>, replies: Seq<Reply>, more: Seq<Reply>)
    requires
        after(commands, replies).phase == Phase::Aborting,
        more.len() > 0,
    ensures
        after(commands, replies + more).phase == Phase::Done,
        command_of(commands, after(commands, replies + more)) is None,
    decreases more.len(),
{
    let all = replies + more;
    assert(all.drop_last() =~= replies + more.drop_last());
    if more.len() > 1 {
        law_abort_is_sent_last(commands, replies, more.drop_last());
    } else {
        assert(replies + more.drop_last() =~= replies);
    }
}

/// A configuration passes exactly when configuration mode was entered and
/// every one of its commands was accepted.
pub proof fn law_passes_when_all_is_accepted(commands: Seq<Seq<char>>, replies: Seq<Reply>)
    requires
        after(commands, replies).phase == Phase::Done,
    ensures
        after(commands, replies).failure is None <==> (replies.len() >= commands.len() + 3
            && accepted(replies, commands.len() as int + 2)),
{
    lemma_consistent(commands, replies);
}

/// The commands of the configuration are sent one by one and in order, each
/// after all before it were accepted.
pub proof fn law_commands_are_fed_in_order(commands: Seq<Seq<char>>, replies: Seq<Reply>)
    requires
        2 <= replies.len() < commands.len() + 2,
        accepted(replies, replies.len() as int),
    ensures
        command_of(commands, after(commands, replies)) == Some(commands[replies.len() - 2]),
{
    lemma_phase_when_accepted(commands, replies);
}

proof fn lemma_phase_when_accepted(commands: Seq<Seq<char>>, replies: Seq<Reply>)
    requires
        2 <= replies.len() < commands.len() + 2,
        accepted(replies, replies.len() as int),
    ensures
        after(commands, replies).phase == Phase::Feeding,
        after(commands, replies).fed == replies.len() - 1,
    decreases replies.len(),
{
    let before = replies.drop_last();
    let n = replies.len() as int;
    assert(before =~= replies.take(n - 1));
    lemma_accepted_prefix(replies, n - 1, n - 1);
    assert(replies[n - 1] is Accepted);
    if n > 2 {
        lemma_phase_when_accepted(commands, before);
    } else {
        let first = before.drop_last();
        assert(before[0] is Accepted);
        assert(first.len() == 0);
        assert(after(commands, first) == opening());
        assert(after(commands, before).phase == Phase::Configuring);
    }
}

proof fn lemma_command_starts(lead: Seq<char>, c: char, rest: Seq<char>)
    requires
        all_white(lead),
        !is_white(c),
    ensures
        trim_of(lead.push(c) + rest).len() > 0,
        trim_of(lead.push(c) + rest)[0] == c,
{
    let line = lead.push(c) + rest;
    assert forall|i: int| 0 <= i < lead.len() implies in_class(
        Class::White,
        #[trigger] line[i],
    ) by {
        assert(line[i] == lead[i]);
    }
    lemma_span_is(line, Class::White, lead.len());
    let t = line.skip(lead.len() as int);
    assert(t =~= seq![c] + rest);
    lemma_trim_end_keeps_front(t);
}

proof fn lemma_trim_end_keeps_front(t: Seq<char>)
    requires
        t.len() > 0,
        !is_white(t[0]),
    ensures
        trim_end_of(t).len() > 0,
        trim_end_of(t)[0] == t[0],
    decreases t.len(),
{
    if is_white(t.last()) {
        lemma_trim_end_keeps_front(t.drop_last());
    }
}

/// A line is fed if, behind any amount of white space, it starts with a
/// character that makes it no comment; a line of white space is not.
pub proof fn law_indented_lines_are_fed(lead: Seq<char>, c: char, rest: Seq<char>)
    requires
        all_white(lead),
        !is_white(c),
    ensures
        is_command(lead.push(c) + rest) <==> c != '!' && c != '#',
        !is_command(lead),
{
    lemma_command_starts(lead, c, rest);
    lemma_span_is(lead, Class::White, lead.len());
}

proof fn lemma_commands_front(line: Seq<char>, rest: Seq<Seq<char>>)
    ensures
        commands_in(seq![line] + rest) == commands_in(seq![line]) + commands_in(rest),
    decreases rest.len(),
{
    let all = seq![line] + rest;
    if rest.len() == 0 {
        assert(all =~= seq![line]);
        assert(commands_in(seq![line]) + commands_in(rest) =~= commands_in(seq![line]));
    } else {
        lemma_commands_front(line, rest.drop_last());
        assert(all.drop_last() =~= seq![line] + rest.drop_last());
        assert(all.last() == rest.last());
        assert(commands_in(all) =~= commands_in(seq![line]) + commands_in(rest));
    }
}

/// What is fed is the lines of the text, each whole and in its place: those
/// that are blank or comments are left out and no others.
pub proof fn law_every_other_line_is_fed(
    lead: Seq<char>,
    c: char,
    end: Seq<char>,
    rest: Seq<char>,
)
    requires
        all_white(lead),
        !is_white(c),
        !(lead.push(c) + end).contains('\n'),
        end.len() > 0 ==> end.last() != '\r',
    ensures
        ({
            let line = lead.push(c) + end;
            let fed = if c != '!' && c != '#' {
                seq![line]
            } else {
                seq![]
            };
            &&& commands_of(line.push('\n') + rest) == fed + commands_of(rest)
            &&& commands_of(line.push('\r').push('\n') + rest) == fed + commands_of(rest)
            &&& commands_of(line) == fed
        }),
{
    let line = lead.push(c) + end;
    assert(line.last() != '\r') by {
        if end.len() > 0 {
            assert(line.last() == end.last());
        } else {
            assert(line.last() == c);
        }
    }
    law_lines_end_at_line_feeds(line, rest);
    law_indented_lines_are_fed(lead, c, end);
    lemma_commands_front(line, lines_of(rest));
    assert(seq![line].drop_last() =~= Seq::<Seq<char>>::empty());
    assert(commands_in(Seq::<Seq<char>>::empty()) =~= seq![]);
    law_last_line_needs_no_line_feed(line);
    assert(commands_in(seq![line]) =~= (if c != '!' && c != '#' {
        seq![line]
    } else {
        seq![]
    }));
}

/// A blank line is not fed.
pub proof fn law_blank_lines_are_not_fed(line: Seq<char>, rest: Seq<char>)
    requires
        all_white(line),
        !line.contains('\n'),
        line.len() > 0 ==> line.last() != '\r',
    ensures
        commands_of(line.push('\n') + rest) == commands_of(rest),
        commands_of(Seq::<char>::empty()) == Seq::<Seq<char>>::empty(),
{
    law_lines_end_at_line_feeds(line, rest);
    law_indented_lines_are_fed(line, 'x', rest);
    lemma_commands_front(line, lines_of(rest));
    assert(seq![line].drop_last() =~= Seq::<Seq<char>>::empty());
    assert(commands_in(Seq::<Seq<char>>::empty()) =~= seq![]);
    assert(!is_command(seq![line].last()));
    assert(commands_in(seq![line]) =~= seq![]);
    assert(seq![] + commands_of(rest) =~= commands_of(rest));
}

/// The dialogue opens with `enable` and `configure terminal`. What the daemon
/// says when it refuses one of them is all of the verdict that it leads to.
pub proof fn law_dialogue_opens(commands: Seq<Seq<char>>, ok: Reply, refusal: Seq<char>)
    requires
        ok is Accepted,
    ensures
        command_of(commands, after(commands, seq![])) == Some("enable"@),
        command_of(commands, after(commands, seq![ok])) == Some("configure terminal"@),
        after(commands, seq![Reply::Rejected(refusal)]).phase == Phase::Done,
        after(commands, seq![Reply::Rejected(refusal)]).failure == Some(
            "vty: enable"@ + " failed: "@ + refusal,
        ),
        after(commands, seq![Reply::Broken(refusal)]).phase == Phase::Done,
        after(commands, seq![Reply::Broken(refusal)]).failure == Some("vty: enable"@),
        after(commands, seq![ok, Reply::Rejected(refusal)]).phase == Phase::Done,
        after(commands, seq![ok, Reply::Rejected(refusal)]).failure == Some(
            "vty: configure terminal"@ + " failed: "@ + refusal,
        ),
        after(commands, seq![ok, Reply::Broken(refusal)]).phase == Phase::Done,
        after(commands, seq![ok, Reply::Broken(refusal)]).failure == Some(
            "vty: configure terminal"@,
        ),
{
    reveal_with_fuel(after, 3);
    assert(seq![ok].drop_last() =~= Seq::<Reply>::empty());
    assert(seq![Reply::Rejected(refusal)].drop_last() =~= Seq::<Reply>::empty());
    assert(seq![Reply::Broken(refusal)].drop_last() =~= Seq::<Reply>::empty());
    assert(seq![ok, Reply::Rejected(refusal)].drop_last() =~= seq![ok]);
    assert(seq![ok, Reply::Broken(refusal)].drop_last() =~= seq![ok]);
}

/// The first command that is not accepted is told in the verdict, quoted, with
/// all that the daemon said of it or the error of the socket.
pub proof fn law_rejected_line_is_told(
    commands: Seq<Seq<char>>,
    replies: Seq<Reply>,
    said: Seq<char>,
)
    requires
        2 <= replies.len() < commands.len() + 2,
        accepted(replies, replies.len() as int),
    ensures
        ({
            let line = commands[replies.len() - 2];
            let rejected = after(commands, replies.push(Reply::Rejected(said)));
            let broken = after(commands, replies.push(Reply::Broken(said)));
            &&& rejected.failure == Some("line "@ + debug_quoted(line) + " rejected: "@ + said)
            &&& broken.failure == Some("line "@ + debug_quoted(line) + ": vty error: "@ + said)
            &&& command_of(commands, rejected) == Some("abort"@)
            &&& command_of(commands, broken) == Some("abort"@)
        }),
{
    lemma_phase_when_accepted(commands, replies);
    assert(replies.push(Reply::Rejected(said)).drop_last() =~= replies);
    assert(replies.push(Reply::Broken(said)).drop_last() =~= replies);
}

/// A failure stands: the reply to `abort`, and whatever comes after it, does
/// not change the verdict.
pub proof fn law_verdict_stands(commands: Seq<Seq<char>>, replies: Seq<Reply>, r: Reply)
    requires
        after(commands, replies).phase == Phase::Aborting || after(commands, replies).phase
            == Phase::Done,
    ensures
        after(commands, replies.push(r)).failure == after(commands, replies).failure,
        after(commands, replies.push(r)).phase == Phase::Done,
{
    assert(replies.push(r).drop_last() =~= replies);
}

/// A reply is accepted exactly when its status is zero, and a rejection keeps
/// all of the output.
pub proof fn law_status_zero_is_acceptance(resp: VtyResponse, e: String)
    ensures
        reply_of(Ok(resp)) is Accepted <==> resp.status == 0,
        resp.status != 0 ==> reply_of(Ok(resp)) == Reply::Rejected(resp.output@),
        reply_of(Err(e)) == Reply::Broken(e@),
{
}

/// A step sends exactly the command that the dialogue has come to, and tells
/// the verdict exactly where the dialogue is over.
pub proof fn law_step_is_its_dialogue(
    step: ValidationStep,
    commands: Seq<Seq<char>>,
    d: Dialogue,
)
    requires
        tells(step, commands, d),
    ensures
        step is Finished <==> d.phase == Phase::Done,
        step matches ValidationStep::Send(c) ==> command_of(commands, d) == Some(c@),
        step matches ValidationStep::Finished(r) ==> (r is Ok <==> d.failure is None),
        step matches ValidationStep::Finished(Err(e)) ==> d.failure == Some(e@),
{
}

} // verus!
