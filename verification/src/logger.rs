//! Log lines: how one is formatted, and the store that keeps the lines of
//! each step in the order in which they arrived.

use crate::text::{strings_view, trim_end, trim_end_of};
use vstd::prelude::*;
use vstd::string::StringExecFns;

verus! {

/// One chunk of output of a running step.
#[derive(Debug)]
pub struct LogMessage {
    /// The instance name of the step that produced the line.
    pub step_name: String,
    pub line: String,
    /// Whether the line was written to the error stream.
    pub is_error: bool,
}

/// What a `LogMessage` holds, as mathematical values.
pub struct LogMessageView {
    pub step_name: Seq<char>,
    pub line: Seq<char>,
    pub is_error: bool,
}

impl View for LogMessage {
    type V = LogMessageView;

    open spec fn view(&self) -> LogMessageView {
        LogMessageView { step_name: self.step_name@, line: self.line@, is_error: self.is_error }
    }
}

/// The views of a sequence of messages.
pub open spec fn messages_view(messages: Seq<LogMessage>) -> Seq<LogMessageView> {
    Seq::new(messages.len(), |i: int| messages[i]@)
}

/// The stored form of a line: the stream, the step, and the line without
/// its trailing whitespace.
pub open spec fn formatted_line(step_name: Seq<char>, line: Seq<char>, is_error: bool) -> Seq<
    char,
> {
    (if is_error {
        "[ERR] ["@
    } else {
        "[OUT] ["@
    }) + step_name + "] "@ + trim_end_of(line)
}

impl LogMessage {
    /// An error-stream line of the step `step_name`.
    pub fn error(step_name: &str, line: String) -> (out: Self)
        ensures
            out@ == (LogMessageView { step_name: step_name@, line: line@, is_error: true }),
    {
        LogMessage { step_name: String::from_str(step_name), line, is_error: true }
    }

    /// The line as it is stored: `[ERR] [step] line` or `[OUT] [step] line`.
    pub fn terminal_format(&self) -> (out: String)
        ensures
            out@ == formatted_line(self.step_name@, self.line@, self.is_error),
    {
        let mut out = if self.is_error {
            String::from_str("[ERR] [")
        } else {
            String::from_str("[OUT] [")
        };
        out.append(self.step_name.as_str());
        out.append("] ");
        let body = trim_end(self.line.as_str());
        out.append(body.as_str());
        out
    }
}

/// The lines of one step, oldest first.
#[derive(Debug, Clone, PartialEq, Eq)]
pub struct StepLog {
    pub step_name: String,
    pub lines: Vec<String>,
}

/// The lines of every step that logged anything, by instance name.
#[derive(Debug, Clone, PartialEq, Eq)]
pub struct LogArchive {
    buckets: Vec<StepLog>,
}

/// The lines kept under `key`, or none.
pub open spec fn lines_of(logs: Map<Seq<char>, Seq<Seq<char>>>, key: Seq<char>) -> Seq<Seq<char>> {
    if logs.dom().contains(key) {
        logs[key]
    } else {
        Seq::empty()
    }
}

impl LogArchive {
    /// Some bucket among the first `n` is named `key`.
    spec fn holds(&self, key: Seq<char>) -> bool {
        exists|i: int| 0 <= i < self.buckets.len() && (#[trigger] self.buckets[i]).step_name@ == key
    }

    spec fn index_of(&self, key: Seq<char>) -> int {
        choose|i: int| 0 <= i < self.buckets.len() && (#[trigger] self.buckets[i]).step_name@ == key
    }

    /// No two buckets have the same name.
    pub closed spec fn wf(&self) -> bool {
        forall|i: int, j: int|
            0 <= i < j < self.buckets.len() ==> (#[trigger] self.buckets[i]).step_name@ != (
            #[trigger] self.buckets[j]).step_name@
    }

    /// The archive as a map from instance name to lines.
    pub closed spec fn view(&self) -> Map<Seq<char>, Seq<Seq<char>>> {
        Map::new(
            |key: Seq<char>| self.holds(key),
            |key: Seq<char>| strings_view(self.buckets[self.index_of(key)].lines@),
        )
    }

    /// The instance names in the order in which each first logged a line.
    pub closed spec fn names(&self) -> Seq<Seq<char>> {
        Seq::new(self.buckets@.len(), |i: int| self.buckets[i].step_name@)
    }

    /// An archive without lines.
    pub fn new() -> (out: Self)
        ensures
            out.wf(),
            out@ == Map::<Seq<char>, Seq<Seq<char>>>::empty(),
            out.names().len() == 0,
    {
        let out = LogArchive { buckets: Vec::new() };
        assert(out@ =~= Map::<Seq<char>, Seq<Seq<char>>>::empty());
        out
    }

    /// Where the bucket named `step_name` stands, if there is one.
    fn position(&self, step_name: &String) -> (out: Option<usize>)
        requires
            self.wf(),
        ensures
            out is Some == self.holds(step_name@),
            out matches Some(i) ==> i < self.buckets.len() && self.buckets[i as int].step_name@
                == step_name@ && self.index_of(step_name@) == i,
    {
        let mut i: usize = 0;
        while i < self.buckets.len()
            invariant
                i <= self.buckets.len(),
                self.wf(),
                forall|k: int| 0 <= k < i ==> (#[trigger] self.buckets[k]).step_name@ != step_name@,
            decreases self.buckets.len() - i,
        {
            if self.buckets[i].step_name == *step_name {
                proof {
                    let k = self.index_of(step_name@);
                    assert(self.buckets[i as int].step_name@ == step_name@);
                    assert(self.buckets[k].step_name@ == step_name@);
                }
                return Some(i);
            }
            i += 1;
        }
        None
    }

    /// Adds `line` after the lines already kept for `step_name`; the lines
    /// of every other step stay as they are.
    pub fn append(&mut self, step_name: &str, line: String)
        requires
            old(self).wf(),
        ensures
            final(self).wf(),
            final(self)@ == old(self)@.insert(
                step_name@,
                lines_of(old(self)@, step_name@).push(line@),
            ),
    {
        let key = String::from_str(step_name);
        let ghost before = *self;
        match self.position(&key) {
            Some(i) => {
                let ghost kept = self.buckets[i as int].lines@;
                self.buckets[i].lines.push(line);
                proof {
                    let after = *self;
                    assert(after.buckets[i as int].lines@ == kept.push(line));
                    assert(strings_view(kept.push(line)) =~= strings_view(kept).push(line@));
                    assert forall|k: int| 0 <= k < after.buckets.len() implies (
                    #[trigger] after.buckets[k]).step_name@ == before.buckets[k].step_name@ by {}
                    assert forall|name: Seq<char>| after.holds(name) == before.holds(name) by {
                        if before.holds(name) {
                            let k = before.index_of(name);
                            assert(after.buckets[k].step_name@ == name);
                        }
                        if after.holds(name) {
                            let k = after.index_of(name);
                            assert(before.buckets[k].step_name@ == name);
                        }
                    }
                    assert forall|name: Seq<char>| after.holds(name) implies after.index_of(name)
                        == before.index_of(name) by {
                        let a = after.index_of(name);
                        let b = before.index_of(name);
                        assert(before.buckets[a].step_name@ == name);
                        assert(before.buckets[b].step_name@ == name);
                    }
                    assert(after@ =~= before@.insert(
                        step_name@,
                        lines_of(before@, step_name@).push(line@),
                    ));
                }
            },
            None => {
                let mut lines: Vec<String> = Vec::new();
                lines.push(line);
                self.buckets.push(StepLog { step_name: key, lines });
                proof {
                    let after = *self;
                    let last = before.buckets.len() as int;
                    assert(strings_view(after.buckets[last].lines@) =~= Seq::<
                        Seq<char>,
                    >::empty().push(line@));
                    assert forall|k: int| 0 <= k < last implies (
                    #[trigger] after.buckets[k]) == before.buckets[k] by {}
                    assert forall|name: Seq<char>| after.holds(name) == (before.holds(name) || name
                        == step_name@) by {
                        if before.holds(name) {
                            let k = before.index_of(name);
                            assert(after.buckets[k].step_name@ == name);
                        }
                        if name == step_name@ {
                            assert(after.buckets[last].step_name@ == name);
                        }
                        if after.holds(name) && name != step_name@ {
                            let k = after.index_of(name);
                            assert(before.buckets[k].step_name@ == name);
                        }
                    }
                    assert forall|name: Seq<char>| before.holds(name) implies after.index_of(name)
                        == before.index_of(name) by {
                        let a = after.index_of(name);
                        let b = before.index_of(name);
                        assert(after.buckets[b].step_name@ == name);
                        assert(after.buckets[a].step_name@ == name);
                    }
                    assert(after.index_of(step_name@) == last) by {
                        assert(after.buckets[last].step_name@ == step_name@);
                        let a = after.index_of(step_name@);
                        if a != last {
                            assert(before.buckets[a].step_name@ == step_name@);
                        }
                    }
                    assert(after@ =~= before@.insert(
                        step_name@,
                        lines_of(before@, step_name@).push(line@),
                    ));
                }
            },
        }
    }

    /// The lines kept for `step_name`, if it logged any.
    pub fn get(&self, step_name: &str) -> (out: Option<&Vec<String>>)
        requires
            self.wf(),
        ensures
            out is Some == self@.dom().contains(step_name@),
            out matches Some(lines) ==> strings_view(lines@) == self@[step_name@],
    {
        let key = String::from_str(step_name);
        match self.position(&key) {
            Some(i) => Some(&self.buckets[i].lines),
            None => None,
        }
    }

    /// The buckets, in the order in which each step first logged a line.
    pub fn entries(&self) -> (out: &Vec<StepLog>)
        ensures
            out@.len() == self.names().len(),
            forall|i: int|
                0 <= i < out@.len() ==> (#[trigger] out@[i]).step_name@ == self.names()[i]
                    && self@.dom().contains(out@[i].step_name@),
            forall|i: int|
                0 <= i < out@.len() && self.wf() ==> strings_view((#[trigger] out@[i]).lines@)
                    == self@[out@[i].step_name@],
    {
        proof {
            assert forall|i: int| 0 <= i < self.buckets.len() implies self.holds(
                (#[trigger] self.buckets[i]).step_name@,
            ) by {}
            assert forall|i: int| 0 <= i < self.buckets.len() && self.wf() implies self.index_of(
                (#[trigger] self.buckets[i]).step_name@,
            ) == i by {
                let k = self.index_of(self.buckets[i].step_name@);
                assert(self.buckets[k].step_name@ == self.buckets[i].step_name@);
            }
        }
        &self.buckets
    }

    /// How many steps logged at least one line.
    pub fn len(&self) -> (n: usize)
        ensures
            n == self.names().len(),
    {
        self.buckets.len()
    }
}

/// The log store of a run. It takes the messages of all steps, in the order
/// in which they arrive, and hands out the archive when the run is over.
pub struct Logger {
    store: LogArchive,
}

impl Logger {
    /// The store keeps each step once.
    pub closed spec fn wf(&self) -> bool {
        self.store.wf()
    }

    /// What has been stored so far.
    pub closed spec fn view(&self) -> Map<Seq<char>, Seq<Seq<char>>> {
        self.store@
    }

    /// A store without lines.
    pub fn new() -> (out: Self)
        ensures
            out.wf(),
            out@ == Map::<Seq<char>, Seq<Seq<char>>>::empty(),
    {
        Logger { store: LogArchive::new() }
    }

    /// Stores the formatted line of `message` after the lines that its step
    /// logged before.
    pub fn record(&mut self, message: &LogMessage)
        requires
            old(self).wf(),
        ensures
            final(self).wf(),
            final(self)@ == old(self)@.insert(
                message.step_name@,
                lines_of(old(self)@, message.step_name@).push(
                    formatted_line(message.step_name@, message.line@, message.is_error),
                ),
            ),
    {
        let line = message.terminal_format();
        self.store.append(message.step_name.as_str(), line);
    }

    /// Closes the store and hands out what was kept.
    pub fn finish(self) -> (out: LogArchive)
        requires
            self.wf(),
        ensures
            out.wf(),
            out@ == self@,
    {
        self.store
    }
}

} // verus!
