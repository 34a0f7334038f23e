//! In-memory ring buffer of the most recent log lines, oldest first, backing
//! the log panel ("last 200 lines, timestamped").
use std::collections::VecDeque;
use std::time::Duration;
use vstd::prelude::*;

verus! {

#[verifier::external_type_specification]
#[verifier::external_body]
pub struct ExLevel(log::Level);

/// How many lines are kept.
pub const CAPACITY: usize = 200;

/// One log line: time since the logger was installed, level and message.
#[derive(Debug)]
pub struct LogLine {
    pub elapsed: Duration,
    pub level: log::Level,
    pub message: String,
}

/// The last `cap` entries of `s` (all of them if there are fewer).
pub open spec fn last_n<T>(s: Seq<T>, cap: nat) -> Seq<T> {
    if s.len() > cap {
        s.subrange(s.len() - cap, s.len() as int)
    } else {
        s
    }
}

/// Fixed-capacity ring buffer of the most recent log lines.
pub struct LogBuffer {
    lines: VecDeque<LogLine>,
}

impl View for LogBuffer {
    type V = Seq<LogLine>;

    closed spec fn view(&self) -> Seq<LogLine> {
        self.lines@
    }
}

impl LogBuffer {
    #[verifier::type_invariant]
    spec fn within_capacity(self) -> bool {
        self.lines@.len() <= CAPACITY
    }

    /// An empty buffer.
    pub fn new() -> (r: Self)
        ensures
            r@ == Seq::<LogLine>::empty(),
    {
        LogBuffer { lines: VecDeque::new() }
    }

    /// Appends `line`, dropping the oldest line when the buffer is full.
    pub fn push(&mut self, line: LogLine)
        ensures
            final(self)@ == last_n(old(self)@.push(line), CAPACITY as nat),
            final(self)@.len() <= CAPACITY,
    {
        proof {
            use_type_invariant(&*self);
        }
        let mut lines: VecDeque<LogLine> = VecDeque::new();
        std::mem::swap(&mut lines, &mut self.lines);
        if lines.len() >= CAPACITY {
            let _ = lines.pop_front();
        }
        lines.push_back(line);
        assert(lines@ =~= last_n(old(self)@.push(line), CAPACITY as nat));
        self.lines = lines;
    }

    /// The current lines, oldest first.
    pub fn snapshot(&self) -> (r: Vec<LogLine>)
        ensures
            r@ == self@,
            r@.len() <= CAPACITY,
    {
        proof {
            use_type_invariant(self);
        }
        let mut out: Vec<LogLine> = Vec::new();
        let mut i: usize = 0;
        while i < self.lines.len()
            invariant
                i <= self.lines@.len(),
                out@ == self.lines@.subrange(0, i as int),
            decreases self.lines@.len() - i,
        {
            out.push(copy_line(&self.lines[i]));
            i = i + 1;
        }
        assert(self.lines@.subrange(0, self.lines@.len() as int) =~= self.lines@);
        out
    }
}

impl Default for LogBuffer {
    fn default() -> (r: Self)
        ensures
            r@ == Seq::<LogLine>::empty(),
    {
        LogBuffer::new()
    }
}

impl Clone for LogLine {
    fn clone(&self) -> (r: Self)
        ensures
            r == *self,
    {
        copy_line(self)
    }
}

fn copy_line(line: &LogLine) -> (r: LogLine)
    ensures
        r == *line,
{
    LogLine { elapsed: line.elapsed, level: line.level, message: line.message.clone() }
}

/// Pushing lines one at a time into the buffer leaves exactly the last
/// [`CAPACITY`] lines of everything pushed, oldest first: one more push onto
/// the kept lines keeps the same lines as one more push onto the whole history.
pub proof fn lemma_push_keeps_most_recent(history: Seq<LogLine>, line: LogLine)
    ensures
        last_n(last_n(history, CAPACITY as nat).push(line), CAPACITY as nat)
            == last_n(history.push(line), CAPACITY as nat),
{
    let c = CAPACITY as nat;
    let a = last_n(last_n(history, c).push(line), c);
    let b = last_n(history.push(line), c);
    assert(a =~= b);
}

} // verus!
