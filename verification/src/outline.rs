//! The outline: one scenario body run over a list of records.

use vstd::prelude::*;
use crate::logger::{separator, separator_str, Log, Sink};
use crate::pending::Pending;
use core::marker::PhantomData;

verus! {

/// The line that opens an outline with the label `label`.
pub open spec fn outline_line(label: Seq<char>) -> Seq<char> {
    "Scenario outline "@ + label
}

/// The body of an outline can be run on `record` at `position`.
pub open spec fn can_run<T, Fut: FnOnce() -> (), F: Fn(T, usize) -> Fut>(
    fut: F,
    record: T,
    position: usize,
) -> bool {
    &&& fut.requires((record, position))
    &&& forall|pending: Fut| #[trigger]
        fut.ensures((record, position), pending) ==> pending.requires(())
}

/// The suspended body of an outline has been applied to `record` at `position`
/// and what it handed back has been driven to its end.
pub open spec fn has_run<T, Fut: FnOnce() -> (), F: Fn(T, usize) -> Fut>(
    fut: F,
    record: T,
    position: usize,
) -> bool {
    exists|pending: Fut| #[trigger]
        fut.ensures((record, position), pending) && pending.ensures((), ())
}

/// A list of records, in order, each to be run through the same scenario body,
/// and the sink of the outline itself.
pub struct OutlineContext<T, W: Sink> {
    writer: W,
    value: Vec<T>,
}

impl<T, W: Sink> OutlineContext<T, W> {
    /// The records, in the order in which they will be run.
    pub closed spec fn records(self) -> Seq<T> {
        self.value@
    }

    /// What the sink of the outline holds.
    pub closed spec fn log(self) -> Log {
        self.writer.log()
    }

    /// A body that suspends can be run on every record at its position.
    pub open spec fn can_run_all<Fut: FnOnce() -> (), F: Fn(T, usize) -> Fut>(
        self,
        fut: F,
    ) -> bool {
        forall|position: usize|
            position < self.records().len() ==> can_run(
                fut,
                #[trigger] self.records()[position as int],
                position,
            )
    }

    /// A body that suspends has been run to its end on every record at its
    /// position.
    pub open spec fn has_run_all<Fut: FnOnce() -> (), F: Fn(T, usize) -> Fut>(
        self,
        fut: F,
    ) -> bool {
        forall|position: usize|
            position < self.records().len() ==> has_run(
                fut,
                #[trigger] self.records()[position as int],
                position,
            )
    }

    /// Runs `fut` on every record, in order, each with its position counted
    /// from zero. Writes the separator line first and flushes the sink at the
    /// end, and hands the sink back.
    pub fn map<Closure>(self, fut: Closure) -> (writer: W)
        where Closure: Fn(T, usize)
        requires
            forall|position: usize|
                position < self.records().len() ==> fut.requires(
                    (#[trigger] self.records()[position as int], position),
                ),
        ensures
            writer.log() == self.log().write(separator()).flush(),
            forall|position: usize|
                position < self.records().len() ==> fut.ensures(
                    (#[trigger] self.records()[position as int], position),
                    (),
                ),
    {
        let mut writer = self.writer;
        writer.write_line(separator_str());
        let ghost records = self.records();
        let count: usize = self.value.len();
        let mut index: usize = 0;
        for record in iter: self.value
            invariant
                records == iter.seq(),
                records.len() == count,
                index == iter.index(),
                writer.log() == self.log().write(separator()),
                forall|position: usize|
                    position < records.len() ==> fut.requires(
                        (#[trigger] records[position as int], position),
                    ),
                forall|position: usize|
                    position < index ==> fut.ensures(
                        (#[trigger] records[position as int], position),
                        (),
                    ),
        {
            fut(record, index);
            index = index + 1;
        }
        writer.flush();
        writer
    }

    /// As `map`, for a body that suspends. The sink is handed back untouched,
    /// beside the pending computation. Once that is driven, the separator line
    /// is written and, for every record in order, `fut` is applied to the
    /// record and its position and what it hands back is driven to its end
    /// before the next record is taken. At the end the sink is flushed and
    /// given as the result.
    pub fn mapf<Closure, Fut>(
        self,
        fut: Closure,
    ) -> (pending: Pending<W, W, impl FnOnce(W) -> W>)
        where Closure: Fn(T, usize) -> Fut, Fut: FnOnce() -> ()
        requires
            self.can_run_all(fut),
        ensures
            pending.wf(),
            pending.held() == self.log(),
            forall|writer: W| #[trigger]
                pending.yields(writer) ==> self.has_run_all(fut) && writer.log()
                    == self.log().write(separator()).flush(),
    {
        let ghost outline = self;
        let value = self.value;
        let run = move |writer: W| -> (end: W)
            requires
                writer.log() == outline.log(),
            ensures
                end.log() == outline.log().write(separator()).flush(),
                outline.has_run_all(fut),
        {
            let mut writer = writer;
            writer.write_line(separator_str());
            let ghost records = outline.records();
            let count: usize = value.len();
            let mut index: usize = 0;
            for record in iter: value
                invariant
                    records == iter.seq(),
                    records.len() == count,
                    index == iter.index(),
                    writer.log() == outline.log().write(separator()),
                    forall|position: usize|
                        position < records.len() ==> can_run(
                            fut,
                            #[trigger] records[position as int],
                            position,
                        ),
                    forall|position: usize|
                        position < index ==> has_run(
                            fut,
                            #[trigger] records[position as int],
                            position,
                        ),
            {
                let pending = fut(record, index);
                pending();
                index = index + 1;
            }
            writer.flush();
            writer
        };
        Pending { writer: self.writer, run, marker: PhantomData }
    }
}

/// Opens an outline: writes `Scenario outline <s>` to `w` and keeps the
/// records.
pub fn outline<T, W: Sink>(s: &str, value: Vec<T>, w: W) -> (context: OutlineContext<T, W>)
    ensures
        context.records() == value@,
        context.log() == w.log().write(outline_line(s@)),
{
    let mut w = w;
    let line = String::from_str("Scenario outline ").concat(s);
    w.write_line(line.as_str());
    OutlineContext { writer: w, value }
}

} // verus!
