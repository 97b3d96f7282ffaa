//! The action phase.

use vstd::prelude::*;
use crate::logger::{Log, Sink};
use crate::pending::Pending;
use crate::stage::{
    advance, advancef, can_resolve, in_action, lemma_log_of_next_stage,
    lemma_phase_of_next_stage, stage, Keyword, Progress, Stage,
};
use crate::then::{ThenContext, ThenContextFuture};
use core::marker::PhantomData;

verus! {

/// A chain in its action phase: it owns its sink and holds the current value.
pub struct WhenContext<T, W: Sink> {
    pub(crate) writer: W,
    pub(crate) value: T,
    pub(crate) origin: Ghost<Log>,
    pub(crate) script: Ghost<Seq<Stage>>,
}

impl<T, W: Sink> View for WhenContext<T, W> {
    type V = Progress<T>;

    open(crate) spec fn view(&self) -> Progress<T> {
        Progress { origin: self.origin@, script: self.script@, value: self.value }
    }
}

impl<T, W: Sink> WhenContext<T, W> {
    /// The sink holds what the chain has written: the log it came with and,
    /// behind it, one line for each stage of the script, in order.
    pub open(crate) spec fn sink_is_current(self) -> bool {
        self.writer.log() == self@.log()
    }

    /// The sink is current, and the script is that of a chain in its action
    /// phase.
    pub open spec fn wf(self) -> bool {
        &&& self.sink_is_current()
        &&& in_action(self@.script)
    }

    /// One stage that stays in this phase, under the keyword given: writes the
    /// line of the stage, then transforms the value with `fut`.
    fn run_stage<Closure, EndType>(
        self,
        keyword: Keyword,
        s: &str,
        fut: Closure,
    ) -> (next: WhenContext<EndType, W>)
        where Closure: FnOnce(T) -> EndType
        requires
            self.wf(),
            keyword == Keyword::And || keyword == Keyword::When,
            fut.requires((self@.value,)),
        ensures
            next.wf(),
            self@.step(keyword, s@, fut, next@),
    {
        let ghost stage = stage(keyword, s@);
        let (writer, value) = advance(self.writer, self.value, keyword, s, fut);
        let next = WhenContext {
            writer,
            value,
            origin: self.origin,
            script: Ghost(self.script@.push(stage)),
        };
        proof {
            lemma_log_of_next_stage(self@, stage, next@);
            lemma_phase_of_next_stage(self@.script, stage);
        }
        next
    }

    /// One stage that stays in this phase, under the keyword given, with a
    /// transform that suspends: the sink, untouched, beside the pending
    /// computation that, once driven, writes the line of the stage, applies
    /// `fut` to the value and drives what `fut` hands back.
    fn run_stagef<Closure, Fut, EndType>(
        self,
        keyword: Keyword,
        s: &str,
        fut: Closure,
    ) -> (pending: Pending<W, WhenContext<EndType, W>, impl FnOnce(W) -> WhenContext<EndType, W>>)
        where Closure: FnOnce(T) -> Fut, Fut: FnOnce() -> EndType
        requires
            self.wf(),
            keyword == Keyword::And || keyword == Keyword::When,
            can_resolve(fut, self@.value),
        ensures
            pending.wf(),
            pending.held() == self@.log(),
            forall|next: WhenContext<EndType, W>| #[trigger]
                pending.yields(next) ==> next.wf() && self@.stepf(keyword, s@, fut, next@),
    {
        let label = String::from_str(s);
        let ghost before = self@;
        let ghost stage = stage(keyword, s@);
        let value = self.value;
        let origin = self.origin;
        let script = self.script;
        let run = move |writer: W| -> (next: WhenContext<EndType, W>)
            requires
                writer.log() == before.log(),
            ensures
                next.wf(),
                before.stepf(keyword, label@, fut, next@),
        {
            let (writer, value) = advancef(writer, value, keyword, label.as_str(), fut);
            let next = WhenContext { writer, value, origin, script: Ghost(script@.push(stage)) };
            proof {
                lemma_log_of_next_stage(before, stage, next@);
                lemma_phase_of_next_stage(before.script, stage);
            }
            next
        };
        Pending { writer: self.writer, run, marker: PhantomData }
    }

    /// Advances to the outcome phase: writes `Then <s>`, then transforms the
    /// value with `fut`.
    pub fn begin_outcome<Closure, EndType>(
        self,
        s: &str,
        fut: Closure,
    ) -> (next: ThenContext<EndType, W>)
        where Closure: FnOnce(T) -> EndType
        requires
            self.wf(),
            fut.requires((self@.value,)),
        ensures
            next.wf(),
            self@.step(Keyword::Then, s@, fut, next@),
    {
        let ghost stage = stage(Keyword::Then, s@);
        let (writer, value) = advance(self.writer, self.value, Keyword::Then, s, fut);
        let next = ThenContext {
            writer,
            value,
            origin: self.origin,
            script: Ghost(self.script@.push(stage)),
        };
        proof {
            lemma_log_of_next_stage(self@, stage, next@);
            lemma_phase_of_next_stage(self@.script, stage);
        }
        next
    }

    /// One more action stage: writes `When <s>`, then transforms the value with
    /// `fut`.
    pub fn when<Closure, EndType>(self, s: &str, fut: Closure) -> (next: WhenContext<EndType, W>)
        where Closure: FnOnce(T) -> EndType
        requires
            self.wf(),
            fut.requires((self@.value,)),
        ensures
            next.wf(),
            self@.step(Keyword::When, s@, fut, next@),
    {
        self.run_stage(Keyword::When, s, fut)
    }

    /// One more action stage with a transform that suspends. The sink is handed
    /// back untouched, beside the pending computation. Once that is driven,
    /// `When <s>` is written, `fut` is applied to the value, and what `fut`
    /// hands back is driven for the new value.
    pub fn whenf<Closure, Fut, EndType>(
        self,
        s: &str,
        fut: Closure,
    ) -> (pending: Pending<W, WhenContext<EndType, W>, impl FnOnce(W) -> WhenContext<EndType, W>>)
        where Closure: FnOnce(T) -> Fut, Fut: FnOnce() -> EndType
        requires
            self.wf(),
            can_resolve(fut, self@.value),
        ensures
            pending.wf(),
            pending.held() == self@.log(),
            forall|next: WhenContext<EndType, W>| #[trigger]
                pending.yields(next) ==> next.wf()
                    && self@.stepf(Keyword::When, s@, fut, next@),
    {
        self.run_stagef(Keyword::When, s, fut)
    }

    /// Continues the action: writes `And <s>`, then transforms the value with
    /// `fut`.
    pub fn and<Closure, EndType>(self, s: &str, fut: Closure) -> (next: WhenContext<EndType, W>)
        where Closure: FnOnce(T) -> EndType
        requires
            self.wf(),
            fut.requires((self@.value,)),
        ensures
            next.wf(),
            self@.step(Keyword::And, s@, fut, next@),
    {
        self.run_stage(Keyword::And, s, fut)
    }

    /// Continues the action with a transform that suspends. The sink is handed
    /// back untouched, beside the pending computation. Once that is driven,
    /// `And <s>` is written, `fut` is applied to the value, and what `fut`
    /// hands back is driven for the new value.
    pub fn andf<Closure, Fut, EndType>(
        self,
        s: &str,
        fut: Closure,
    ) -> (pending: Pending<W, WhenContext<EndType, W>, impl FnOnce(W) -> WhenContext<EndType, W>>)
        where Closure: FnOnce(T) -> Fut, Fut: FnOnce() -> EndType
        requires
            self.wf(),
            can_resolve(fut, self@.value),
        ensures
            pending.wf(),
            pending.held() == self@.log(),
            forall|next: WhenContext<EndType, W>| #[trigger]
                pending.yields(next) ==> next.wf()
                    && self@.stepf(Keyword::And, s@, fut, next@),
    {
        self.run_stagef(Keyword::And, s, fut)
    }

    /// Advances to the outcome phase with a transform that suspends. The sink
    /// is handed back untouched, beside the pending computation. Once that is
    /// driven, `Then <s>` is written, `fut` is applied to the value, and what
    /// `fut` hands back is driven for the new value.
    pub fn thenf<Closure, Fut, EndType>(
        self,
        s: &str,
        fut: Closure,
    ) -> (pending: Pending<W, ThenContext<EndType, W>, impl FnOnce(W) -> ThenContext<EndType, W>>)
        where Closure: FnOnce(T) -> Fut, Fut: FnOnce() -> EndType
        requires
            self.wf(),
            can_resolve(fut, self@.value),
        ensures
            pending.wf(),
            pending.held() == self@.log(),
            forall|next: ThenContext<EndType, W>| #[trigger]
                pending.yields(next) ==> next.wf() && self@.stepf(Keyword::Then, s@, fut, next@),
    {
        let label = String::from_str(s);
        let ghost before = self@;
        let ghost stage = stage(Keyword::Then, s@);
        let value = self.value;
        let origin = self.origin;
        let script = self.script;
        let run = move |writer: W| -> (next: ThenContext<EndType, W>)
            requires
                writer.log() == before.log(),
            ensures
                next.wf(),
                before.stepf(Keyword::Then, label@, fut, next@),
        {
            let (writer, value) = advancef(writer, value, Keyword::Then, label.as_str(), fut);
            let next = ThenContext { writer, value, origin, script: Ghost(script@.push(stage)) };
            proof {
                lemma_log_of_next_stage(before, stage, next@);
                lemma_phase_of_next_stage(before.script, stage);
            }
            next
        };
        Pending { writer: self.writer, run, marker: PhantomData }
    }

    /// Advances to the outcome phase with a transform that suspends, and hands
    /// back a suspended chain that further stages can be added to. It holds the
    /// sink untouched and what `thenf` leaves pending: once driven, it gives
    /// what `thenf`, driven, gives.
    pub fn thenfw<Closure, Fut, EndType>(
        self,
        s: &str,
        fut: Closure,
    ) -> (next: ThenContextFuture<EndType, W, impl FnOnce(W) -> ThenContext<EndType, W>>)
        where Closure: FnOnce(T) -> Fut, Fut: FnOnce() -> EndType
        requires
            self.wf(),
            can_resolve(fut, self@.value),
        ensures
            next.wf(),
            next.held() == self@.log(),
            next.origin() == self@.origin,
            next.script() == self@.script.push(stage(Keyword::Then, s@)),
            forall|after: ThenContext<EndType, W>| #[trigger]
                next.yields(after) ==> self@.stepf(Keyword::Then, s@, fut, after@),
    {
        let ghost script = self.script@.push(stage(Keyword::Then, s@));
        let origin = self.origin;
        proof {
            lemma_phase_of_next_stage(self.script@, stage(Keyword::Then, s@));
        }
        let ghost before = self@;
        let pending = self.thenf(s, fut);
        proof {
            assert forall|after: ThenContext<EndType, W>| #[trigger]
                pending.run.ensures((pending.writer,), after) implies after.wf()
                && before.stepf(Keyword::Then, s@, fut, after@) by {
                assert(pending.yields(after));
            }
        }
        ThenContextFuture {
            writer: pending.writer,
            context: pending.run,
            origin,
            script: Ghost(script),
            marker: PhantomData,
        }
    }

    /// Advances to the outcome phase: writes `Then <s>`, then transforms the
    /// value with `fut`. It is `begin_outcome` under its usual name.
    pub fn then<Closure, EndType>(self, s: &str, fut: Closure) -> (next: ThenContext<EndType, W>)
        where Closure: FnOnce(T) -> EndType
        requires
            self.wf(),
            fut.requires((self@.value,)),
        ensures
            next.wf(),
            self@.step(Keyword::Then, s@, fut, next@),
    {
        self.begin_outcome(s, fut)
    }

    /// Ends the chain here and hands back the value and the sink. The sink
    /// holds the log it came with and, behind it, the line of every stage of
    /// the chain, in order.
    pub fn into_parts(self) -> (parts: (T, W))
        requires
            self.wf(),
        ensures
            parts.0 == self@.value,
            parts.1.log() == self@.log(),
    {
        (self.value, self.writer)
    }
}

/// A suspended chain in its action phase: the sink, and beside it a pending
/// computation that takes the sink when the chain is driven and gives a
/// `WhenContext`. Until then the sink is left as it is.
#[verifier::reject_recursive_types(T)]
#[verifier::reject_recursive_types(W)]
#[must_use]
pub struct WhenContextFuture<T, W: Sink, P: FnOnce(W) -> WhenContext<T, W>> {
    pub(crate) writer: W,
    pub(crate) context: P,
    pub(crate) origin: Ghost<Log>,
    pub(crate) script: Ghost<Seq<Stage>>,
    pub(crate) marker: PhantomData<T>,
}

impl<T, W: Sink, P: FnOnce(W) -> WhenContext<T, W>> WhenContextFuture<T, W, P> {
    /// What the sink of this chain holds now, before the chain is driven.
    pub open(crate) spec fn held(self) -> Log {
        self.writer.log()
    }

    /// The log that the sink of this chain came with when the chain began.
    pub open(crate) spec fn origin(self) -> Log {
        self.origin@
    }

    /// The stages that this chain will have gone through once it is driven.
    pub open(crate) spec fn script(self) -> Seq<Stage> {
        self.script@
    }

    /// Driving this chain may give `context`.
    pub open(crate) spec fn yields(self, context: WhenContext<T, W>) -> bool {
        self.context.ensures((self.writer,), context)
    }

    /// The chain can be driven, and whatever it gives is well formed, began
    /// with `origin` and has gone through the stages of `script`.
    pub open(crate) spec fn drivable(self) -> bool {
        &&& self.context.requires((self.writer,))
        &&& forall|context: WhenContext<T, W>| #[trigger]
            self.context.ensures((self.writer,), context) ==> {
                &&& context.wf()
                &&& context@.origin == self.origin@
                &&& context@.script == self.script@
            }
    }

    /// The chain can be driven, and its script is that of a chain in its action
    /// phase.
    pub open spec fn wf(self) -> bool {
        &&& self.drivable()
        &&& in_action(self.script())
    }

    /// Drives the chain to completion: the pending computation takes the sink,
    /// and every stage that was suspended writes its line and transforms the
    /// value, in the order of `script`.
    pub fn drive(self) -> (context: WhenContext<T, W>)
        requires
            self.wf(),
        ensures
            self.yields(context),
            context.wf(),
            context@.origin == self.origin(),
            context@.script == self.script(),
    {
        (self.context)(self.writer)
    }

    /// Continues the action with a transform that suspends, without driving
    /// anything: the sink stays as it is, and once driven, the result gives
    /// what `WhenContext::andf`, driven, makes of what this chain gives.
    pub fn andf<Closure, Fut, EndType>(
        self,
        s: &str,
        fut: Closure,
    ) -> (next: WhenContextFuture<EndType, W, impl FnOnce(W) -> WhenContext<EndType, W>>)
        where Closure: FnOnce(T) -> Fut, Fut: FnOnce() -> EndType
        requires
            self.wf(),
            forall|before: WhenContext<T, W>| #[trigger]
                self.yields(before) ==> can_resolve(fut, before@.value),
        ensures
            next.wf(),
            next.held() == self.held(),
            next.origin() == self.origin(),
            next.script() == self.script().push(stage(Keyword::And, s@)),
            forall|after: WhenContext<EndType, W>| #[trigger]
                next.yields(after) ==> exists|before: WhenContext<T, W>| #[trigger]
                    self.yields(before) && before@.stepf(Keyword::And, s@, fut, after@),
    {
        let label = String::from_str(s);
        let ghost text = s@;
        let ghost sink = self.writer;
        let ghost origin = self.origin@;
        let ghost script = self.script@;
        let inner = self.context;
        proof {
            assert forall|before: WhenContext<T, W>| #[trigger]
                inner.ensures((sink,), before) implies before.wf() && before@.origin == origin
                && before@.script == script && can_resolve(fut, before@.value) by {
                assert(self.yields(before));
            }
            lemma_phase_of_next_stage(script, stage(Keyword::And, text));
        }
        let context = move |writer: W| -> (after: WhenContext<EndType, W>)
            requires
                writer == sink,
            ensures
                after.wf(),
                exists|before: WhenContext<T, W>| #[trigger]
                    inner.ensures((sink,), before)
                        && before@.stepf(Keyword::And, text, fut, after@),
        {
            let before = inner(writer);
            let pending = before.andf(label.as_str(), fut);
            pending.drive()
        };
        let next = WhenContextFuture {
            writer: self.writer,
            context,
            origin: self.origin,
            script: Ghost(script.push(stage(Keyword::And, text))),
            marker: PhantomData,
        };
        proof {
            assert forall|after: WhenContext<EndType, W>| #[trigger]
                next.yields(after) implies exists|before: WhenContext<T, W>| #[trigger]
                self.yields(before) && before@.stepf(Keyword::And, s@, fut, after@) by {
                let before = choose|before: WhenContext<T, W>| #[trigger]
                    inner.ensures((sink,), before)
                        && before@.stepf(Keyword::And, text, fut, after@);
                assert(self.yields(before));
            }
        }
        next
    }

    /// Continues the action without driving anything: the sink stays as it is,
    /// and once driven, the result gives what `WhenContext::and` makes of what
    /// this chain gives.
    pub fn and<Closure, EndType>(
        self,
        s: &str,
        fut: Closure,
    ) -> (next: WhenContextFuture<EndType, W, impl FnOnce(W) -> WhenContext<EndType, W>>)
        where Closure: FnOnce(T) -> EndType
        requires
            self.wf(),
            forall|before: WhenContext<T, W>| #[trigger]
                self.yields(before) ==> fut.requires((before@.value,)),
        ensures
            next.wf(),
            next.held() == self.held(),
            next.origin() == self.origin(),
            next.script() == self.script().push(stage(Keyword::And, s@)),
            forall|after: WhenContext<EndType, W>| #[trigger]
                next.yields(after) ==> exists|before: WhenContext<T, W>| #[trigger]
                    self.yields(before) && before@.step(Keyword::And, s@, fut, after@),
    {
        let label = String::from_str(s);
        let ghost text = s@;
        let ghost sink = self.writer;
        let ghost origin = self.origin@;
        let ghost script = self.script@;
        let inner = self.context;
        proof {
            assert forall|before: WhenContext<T, W>| #[trigger]
                inner.ensures((sink,), before) implies before.wf() && before@.origin == origin
                && before@.script == script && fut.requires((before@.value,)) by {
                assert(self.yields(before));
            }
            lemma_phase_of_next_stage(script, stage(Keyword::And, text));
        }
        let context = move |writer: W| -> (after: WhenContext<EndType, W>)
            requires
                writer == sink,
            ensures
                after.wf(),
                exists|before: WhenContext<T, W>| #[trigger]
                    inner.ensures((sink,), before)
                        && before@.step(Keyword::And, text, fut, after@),
        {
            let before = inner(writer);
            before.and(label.as_str(), fut)
        };
        let next = WhenContextFuture {
            writer: self.writer,
            context,
            origin: self.origin,
            script: Ghost(script.push(stage(Keyword::And, text))),
            marker: PhantomData,
        };
        proof {
            assert forall|after: WhenContext<EndType, W>| #[trigger]
                next.yields(after) implies exists|before: WhenContext<T, W>| #[trigger]
                self.yields(before) && before@.step(Keyword::And, s@, fut, after@) by {
                let before = choose|before: WhenContext<T, W>| #[trigger]
                    inner.ensures((sink,), before)
                        && before@.step(Keyword::And, text, fut, after@);
                assert(self.yields(before));
            }
        }
        next
    }

    /// Advances to the outcome phase with a transform that suspends, without
    /// driving anything: the sink stays as it is, and once driven, the result
    /// gives what `WhenContext::thenf`, driven, makes of what this chain gives.
    pub fn thenf<Closure, Fut, EndType>(
        self,
        s: &str,
        fut: Closure,
    ) -> (next: ThenContextFuture<EndType, W, impl FnOnce(W) -> ThenContext<EndType, W>>)
        where Closure: FnOnce(T) -> Fut, Fut: FnOnce() -> EndType
        requires
            self.wf(),
            forall|before: WhenContext<T, W>| #[trigger]
                self.yields(before) ==> can_resolve(fut, before@.value),
        ensures
            next.wf(),
            next.held() == self.held(),
            next.origin() == self.origin(),
            next.script() == self.script().push(stage(Keyword::Then, s@)),
            forall|after: ThenContext<EndType, W>| #[trigger]
                next.yields(after) ==> exists|before: WhenContext<T, W>| #[trigger]
                    self.yields(before) && before@.stepf(Keyword::Then, s@, fut, after@),
    {
        let label = String::from_str(s);
        let ghost text = s@;
        let ghost sink = self.writer;
        let ghost origin = self.origin@;
        let ghost script = self.script@;
        let inner = self.context;
        proof {
            assert forall|before: WhenContext<T, W>| #[trigger]
                inner.ensures((sink,), before) implies before.wf() && before@.origin == origin
                && before@.script == script && can_resolve(fut, before@.value) by {
                assert(self.yields(before));
            }
            lemma_phase_of_next_stage(script, stage(Keyword::Then, text));
        }
        let context = move |writer: W| -> (after: ThenContext<EndType, W>)
            requires
                writer == sink,
            ensures
                after.wf(),
                exists|before: WhenContext<T, W>| #[trigger]
                    inner.ensures((sink,), before)
                        && before@.stepf(Keyword::Then, text, fut, after@),
        {
            let before = inner(writer);
            let pending = before.thenf(label.as_str(), fut);
            pending.drive()
        };
        let next = ThenContextFuture {
            writer: self.writer,
            context,
            origin: self.origin,
            script: Ghost(script.push(stage(Keyword::Then, text))),
            marker: PhantomData,
        };
        proof {
            assert forall|after: ThenContext<EndType, W>| #[trigger]
                next.yields(after) implies exists|before: WhenContext<T, W>| #[trigger]
                self.yields(before) && before@.stepf(Keyword::Then, s@, fut, after@) by {
                let before = choose|before: WhenContext<T, W>| #[trigger]
                    inner.ensures((sink,), before)
                        && before@.stepf(Keyword::Then, text, fut, after@);
                assert(self.yields(before));
            }
        }
        next
    }

    /// Advances to the outcome phase without driving anything: the sink stays
    /// as it is, and once driven, the result gives what
    /// `WhenContext::begin_outcome` makes of what this chain gives.
    pub fn begin_outcome<Closure, EndType>(
        self,
        s: &str,
        fut: Closure,
    ) -> (next: ThenContextFuture<EndType, W, impl FnOnce(W) -> ThenContext<EndType, W>>)
        where Closure: FnOnce(T) -> EndType
        requires
            self.wf(),
            forall|before: WhenContext<T, W>| #[trigger]
                self.yields(before) ==> fut.requires((before@.value,)),
        ensures
            next.wf(),
            next.held() == self.held(),
            next.origin() == self.origin(),
            next.script() == self.script().push(stage(Keyword::Then, s@)),
            forall|after: ThenContext<EndType, W>| #[trigger]
                next.yields(after) ==> exists|before: WhenContext<T, W>| #[trigger]
                    self.yields(before) && before@.step(Keyword::Then, s@, fut, after@),
    {
        let label = String::from_str(s);
        let ghost text = s@;
        let ghost sink = self.writer;
        let ghost origin = self.origin@;
        let ghost script = self.script@;
        let inner = self.context;
        proof {
            assert forall|before: WhenContext<T, W>| #[trigger]
                inner.ensures((sink,), before) implies before.wf() && before@.origin == origin
                && before@.script == script && fut.requires((before@.value,)) by {
                assert(self.yields(before));
            }
            lemma_phase_of_next_stage(script, stage(Keyword::Then, text));
        }
        let context = move |writer: W| -> (after: ThenContext<EndType, W>)
            requires
                writer == sink,
            ensures
                after.wf(),
                exists|before: WhenContext<T, W>| #[trigger]
                    inner.ensures((sink,), before)
                        && before@.step(Keyword::Then, text, fut, after@),
        {
            let before = inner(writer);
            before.begin_outcome(label.as_str(), fut)
        };
        let next = ThenContextFuture {
            writer: self.writer,
            context,
            origin: self.origin,
            script: Ghost(script.push(stage(Keyword::Then, text))),
            marker: PhantomData,
        };
        proof {
            assert forall|after: ThenContext<EndType, W>| #[trigger]
                next.yields(after) implies exists|before: WhenContext<T, W>| #[trigger]
                self.yields(before) && before@.step(Keyword::Then, s@, fut, after@) by {
                let before = choose|before: WhenContext<T, W>| #[trigger]
                    inner.ensures((sink,), before)
                        && before@.step(Keyword::Then, text, fut, after@);
                assert(self.yields(before));
            }
        }
        next
    }

    /// Advances to the outcome phase without driving anything. It is
    /// `begin_outcome` under its usual name.
    pub fn then<Closure, EndType>(
        self,
        s: &str,
        fut: Closure,
    ) -> (next: ThenContextFuture<EndType, W, impl FnOnce(W) -> ThenContext<EndType, W>>)
        where Closure: FnOnce(T) -> EndType
        requires
            self.wf(),
            forall|before: WhenContext<T, W>| #[trigger]
                self.yields(before) ==> fut.requires((before@.value,)),
        ensures
            next.wf(),
            next.held() == self.held(),
            next.origin() == self.origin(),
            next.script() == self.script().push(stage(Keyword::Then, s@)),
            forall|after: ThenContext<EndType, W>| #[trigger]
                next.yields(after) ==> exists|before: WhenContext<T, W>| #[trigger]
                    self.yields(before) && before@.step(Keyword::Then, s@, fut, after@),
    {
        self.begin_outcome(s, fut)
    }
}

} // verus!
