//! Log lines with a fixed prefix.

use vstd::prelude::*;
use crate::text::{cat3, lemma_texts_push, lines, lines_of, texts};

verus! {

/// Something to be logged.
pub enum LogEntry {
    /// A message.
    Log(String),
    /// An error.
    Error(String),
    /// Output of a tool that is relayed.
    Block(String),
    /// Output of a tool that is relayed as part of an error.
    ErrorBlock(String),
}

/// A log entry as a mathematical value.
pub enum LogView {
    Log(Seq<char>),
    Error(Seq<char>),
    Block(Seq<char>),
    ErrorBlock(Seq<char>),
}

impl View for LogEntry {
    type V = LogView;

    open spec fn view(&self) -> LogView {
        match self {
            LogEntry::Log(s) => LogView::Log(s@),
            LogEntry::Error(s) => LogView::Error(s@),
            LogEntry::Block(s) => LogView::Block(s@),
            LogEntry::ErrorBlock(s) => LogView::ErrorBlock(s@),
        }
    }
}

/// Log entries as mathematical values.
pub open spec fn log_views(v: Seq<LogEntry>) -> Seq<LogView> {
    Seq::new(v.len(), |i: int| v[i]@)
}

/// Appending an entry appends what it is.
pub proof fn lemma_log_push(v: Seq<LogEntry>, e: LogEntry)
    ensures
        log_views(v.push(e)) == log_views(v).push(e@),
{
    assert(log_views(v.push(e)) =~= log_views(v).push(e@));
}

/// Each line of a text behind a prefix.
pub open spec fn prefixed(prefix: Seq<char>, lines: Seq<Seq<char>>) -> Seq<Seq<char>> {
    Seq::new(lines.len(), |i: int| prefix + ":   "@ + lines[i])
}

/// Writes the log lines of one program.
pub struct Logger(&'static str);

impl View for Logger {
    type V = Seq<char>;

    closed spec fn view(&self) -> Seq<char> {
        self.0@
    }
}

impl Logger {
    /// A logger with a prefix of its own.
    pub fn new(prefix: &'static str) -> (r: Self)
        ensures
            r@ == prefix@,
    {
        Logger(prefix)
    }

    /// The line of a message, for standard output.
    pub fn log(&self, msg: &str) -> (r: String)
        ensures
            r@ == self@ + ": "@ + msg@,
    {
        cat3(self.0, ": ", msg)
    }

    /// The line of an error, for standard error.
    pub fn err(&self, msg: &str) -> (r: String)
        ensures
            r@ == self@ + ": ERROR: "@ + msg@,
    {
        cat3(self.0, ": ERROR: ", msg)
    }

    /// The lines of relayed output, indented under the prefix, for standard
    /// output.
    pub fn block(&self, text: &str) -> (r: Vec<String>)
        ensures
            texts(r@) == prefixed(self@, lines_of(text@)),
    {
        let all = lines(text);
        let mut out: Vec<String> = Vec::new();
        let mut i: usize = 0;
        proof {
            assert(texts(out@) =~= prefixed(self@, texts(all@).take(0)));
        }
        while i < all.len()
            invariant
                i <= all.len(),
                texts(out@) == prefixed(self@, texts(all@).take(i as int)),
            decreases all.len() - i,
        {
            let line = cat3(self.0, ":   ", all[i].as_str());
            proof {
                lemma_texts_push(out@, line);
                assert(prefixed(self@, texts(all@).take(i + 1)) =~= prefixed(
                    self@,
                    texts(all@).take(i as int),
                ).push(line@));
            }
            out.push(line);
            i += 1;
        }
        proof {
            assert(texts(all@).take(i as int) =~= texts(all@));
        }
        out
    }

    /// The lines of relayed output that belongs to an error, for standard
    /// error.
    pub fn err_block(&self, text: &str) -> (r: Vec<String>)
        ensures
            texts(r@) == prefixed(self@, lines_of(text@)),
    {
        self.block(text)
    }
}

// ---------------------------------------------------------------------------
// Laws
// ---------------------------------------------------------------------------

/// Relayed output keeps every line, in order, each behind the same prefix: one
/// line more is one line more in the log.
pub proof fn law_every_line_is_relayed(prefix: Seq<char>, lines: Seq<Seq<char>>, line: Seq<char>)
    ensures
        prefixed(prefix, seq![]).len() == 0,
        prefixed(prefix, lines.push(line)) == prefixed(prefix, lines).push(prefix + ":   "@ + line),
{
    assert(prefixed(prefix, lines.push(line)) =~= prefixed(prefix, lines).push(
        prefix + ":   "@ + line,
    ));
}

/// Every entry counts, in order, with its text and with whether it is an error
/// and whether it is relayed.
pub proof fn law_entries_are_told(v: Seq<LogEntry>, i: int)
    requires
        0 <= i < v.len(),
    ensures
        log_views(v).len() == v.len(),
        match v[i] {
            LogEntry::Log(t) => log_views(v)[i] == LogView::Log(t@),
            LogEntry::Error(t) => log_views(v)[i] == LogView::Error(t@),
            LogEntry::Block(t) => log_views(v)[i] == LogView::Block(t@),
            LogEntry::ErrorBlock(t) => log_views(v)[i] == LogView::ErrorBlock(t@),
        },
{
}

} // verus!
