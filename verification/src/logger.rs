//! The sink that a chain writes its lines to, and two sinks to begin with: one
//! that closes a scenario with a separator, and one that keeps its lines in
//! memory.

use vstd::prelude::*;

verus! {

/// What a sink has taken so far: the lines written to it, oldest first, and how
/// many of them, counted from the first, a flush has pushed through.
pub struct Log {
    pub lines: Seq<Seq<char>>,
    pub flushed: nat,
}

impl Log {
    /// The log of a sink that nothing was written to.
    pub open spec fn empty() -> Log {
        Log { lines: Seq::empty(), flushed: 0 }
    }

    /// The log after one more line.
    pub open spec fn write(self, line: Seq<char>) -> Log {
        Log { lines: self.lines.push(line), flushed: self.flushed }
    }

    /// The log after a flush: every line written so far is through.
    pub open spec fn flush(self) -> Log {
        Log { lines: self.lines, flushed: self.lines.len() }
    }
}

/// A destination for the lines of a scenario.
///
/// A sink takes text one line at a time and can be flushed. A chain owns its
/// sink and hands it on from stage to stage; nothing else writes to it.
///
/// The contracts of the chain rest on those of `write_line` and `flush`. An
/// implementation has to meet them: it takes every line in full and in order,
/// and where it cannot take a line, or cannot flush, it does not return.
pub trait Sink {
    /// What this sink has taken so far. It serves contracts only and is never
    /// called when a program runs.
    spec fn log(&self) -> Log;

    /// Writes `line` as one line.
    fn write_line(&mut self, line: &str)
        ensures
            final(self).log() == old(self).log().write(line@),
    ;

    /// Pushes everything written so far through to the destination.
    fn flush(&mut self)
        ensures
            final(self).log() == old(self).log().flush(),
    ;
}

/// The line that parts one scenario from the next.
pub open spec fn separator() -> Seq<char> {
    "========================="@
}

/// The text of `separator`.
pub fn separator_str() -> (line: &'static str)
    ensures
        line@ == separator(),
{
    "========================="
}

/// A sink that closes a scenario: it hands every line and every flush on to the
/// sink inside it, and when it is disposed of it writes the separator line and
/// flushes.
pub struct SeparatorLogger<W: Sink> {
    writer: W,
}

impl<W: Sink> SeparatorLogger<W> {
    /// Wraps `writer`; nothing is written.
    pub fn new(writer: W) -> (logger: Self)
        ensures
            logger.log() == writer.log(),
    {
        SeparatorLogger { writer }
    }

    /// Closes the scenario: writes the separator line and flushes, so that
    /// everything written is through and parted from what comes next.
    pub fn dispose(&mut self)
        ensures
            final(self).log() == old(self).log().write(separator()).flush(),
    {
        self.writer.write_line(separator_str());
        self.writer.flush();
    }

    /// Hands back the sink inside.
    pub fn into_inner(self) -> (writer: W)
        ensures
            writer.log() == self.log(),
    {
        self.writer
    }
}

impl<W: Sink> Sink for SeparatorLogger<W> {
    closed spec fn log(&self) -> Log {
        self.writer.log()
    }

    fn write_line(&mut self, line: &str) {
        self.writer.write_line(line);
    }

    fn flush(&mut self) {
        self.writer.flush();
    }
}

/// A sink that keeps in memory what is written to it.
pub struct Transcript {
    lines: Vec<String>,
    flushed: usize,
}

impl Transcript {
    /// A transcript that nothing was written to.
    pub fn new() -> (transcript: Self)
        ensures
            transcript.log() == Log::empty(),
    {
        let transcript = Transcript { lines: Vec::new(), flushed: 0 };
        assert(transcript.log().lines =~= Seq::empty());
        transcript
    }

    /// The lines written so far, oldest first.
    pub fn lines(&self) -> (lines: &Vec<String>)
        ensures
            lines@.len() == self.log().lines.len(),
            forall|i: int| 0 <= i < lines@.len() ==> (#[trigger] lines@[i])@ == self.log().lines[i],
    {
        &self.lines
    }

    /// How many lines, counted from the first, the last flush pushed through.
    pub fn flushed(&self) -> (count: usize)
        ensures
            count == self.log().flushed,
    {
        self.flushed
    }
}

impl Sink for Transcript {
    closed spec fn log(&self) -> Log {
        Log { lines: self.lines@.map_values(|line: String| line@), flushed: self.flushed as nat }
    }

    fn write_line(&mut self, line: &str) {
        self.lines.push(String::from_str(line));
        assert(self.log().lines =~= old(self).log().lines.push(line@));
    }

    fn flush(&mut self) {
        self.flushed = self.lines.len();
    }
}

} // verus!
