//! The setup phase, where a chain begins.

use vstd::prelude::*;
use crate::logger::{Log, Sink};
use crate::pending::Pending;
use crate::stage::{
    advance, advancef, begins, can_begin, can_resolve, in_setup, lemma_first_stage_in_setup,
    lemma_log_of_first_stage, lemma_log_of_next_stage, lemma_phase_of_next_stage, stage,
    write_stage, Keyword, Progress, Stage,
};
use crate::when::{WhenContext, WhenContextFuture};
use core::marker::PhantomData;

verus! {

/// Enters the setup phase: writes `Given <s>` to `w`, then runs `callback` for
/// the first value.
pub fn given<T, F, W: Sink>(s: &str, callback: F, w: W) -> (context: GivenContext<T, W>)
    where F: FnOnce() -> T
    requires
        callback.requires(()),
    ensures
        context.wf(),
        context@.origin == w.log(),
        context@.script == seq![stage(Keyword::Given, s@)],
        callback.ensures((), context@.value),
{
    let ghost origin = w.log();
    let ghost script = seq![stage(Keyword::Given, s@)];
    let mut w = w;
    write_stage(&mut w, Keyword::Given, s);
    let context = GivenContext {
        writer: w,
        value: callback(),
        origin: Ghost(origin),
        script: Ghost(script),
    };
    proof {
        lemma_log_of_first_stage(origin, stage(Keyword::Given, s@));
        lemma_first_stage_in_setup(s@);
    }
    context
}

/// Enters the setup phase with the first value at hand: writes `Given <s>` to
/// `w`.
pub fn given_data<T, W: Sink>(s: &str, value: T, w: W) -> (context: GivenContext<T, W>)
    ensures
        context.wf(),
        context@.origin == w.log(),
        context@.script == seq![stage(Keyword::Given, s@)],
        context@.value == value,
{
    let ghost origin = w.log();
    let ghost script = seq![stage(Keyword::Given, s@)];
    let mut w = w;
    write_stage(&mut w, Keyword::Given, s);
    let context = GivenContext { writer: w, value, origin: Ghost(origin), script: Ghost(script) };
    proof {
        lemma_log_of_first_stage(origin, stage(Keyword::Given, s@));
        lemma_first_stage_in_setup(s@);
    }
    context
}

/// Enters the setup phase, suspended. The sink is kept as it came and nothing
/// runs until the result is driven. Then `Given <s>` is written to the sink,
/// `callback` is called, and the pending computation that it hands back is
/// driven for the first value.
pub fn givenf<EndType, Callback, Fut, W: Sink>(
    s: &str,
    callback: Callback,
    w: W,
) -> (next: GivenContextFuture<EndType, W, impl FnOnce(W) -> GivenContext<EndType, W>>)
    where Callback: FnOnce() -> Fut, Fut: FnOnce() -> EndType
    requires
        can_begin(callback),
    ensures
        next.wf(),
        next.held() == w.log(),
        next.origin() == w.log(),
        next.script() == seq![stage(Keyword::Given, s@)],
        forall|context: GivenContext<EndType, W>| #[trigger]
            next.yields(context) ==> begins(callback, context@.value),
{
    let ghost origin = w.log();
    let ghost script = seq![stage(Keyword::Given, s@)];
    let label = String::from_str(s);
    let context = move |writer: W| -> (context: GivenContext<EndType, W>)
        ensures
            context.wf(),
            context@.origin == writer.log(),
            context@.script == seq![stage(Keyword::Given, label@)],
            begins(callback, context@.value),
    {
        given_future(label.as_str(), callback, writer)
    };
    proof {
        lemma_first_stage_in_setup(s@);
    }
    GivenContextFuture {
        writer: w,
        context,
        origin: Ghost(origin),
        script: Ghost(script),
        marker: PhantomData,
    }
}

/// Enters the setup phase, suspended, with the first value at hand. The sink is
/// kept as it came until the result is driven; then `Given <s>` is written to
/// it.
pub fn given_dataf<T, W: Sink>(
    s: &str,
    value: T,
    w: W,
) -> (next: GivenContextFuture<T, W, impl FnOnce(W) -> GivenContext<T, W>>)
    ensures
        next.wf(),
        next.held() == w.log(),
        next.origin() == w.log(),
        next.script() == seq![stage(Keyword::Given, s@)],
        forall|context: GivenContext<T, W>| #[trigger]
            next.yields(context) ==> context@.value == value,
{
    let ghost origin = w.log();
    let ghost script = seq![stage(Keyword::Given, s@)];
    let label = String::from_str(s);
    let context = move |writer: W| -> (context: GivenContext<T, W>)
        ensures
            context.wf(),
            context@.origin == writer.log(),
            context@.script == seq![stage(Keyword::Given, label@)],
            context@.value == value,
    {
        given_data(label.as_str(), value, writer)
    };
    proof {
        lemma_first_stage_in_setup(s@);
    }
    GivenContextFuture {
        writer: w,
        context,
        origin: Ghost(origin),
        script: Ghost(script),
        marker: PhantomData,
    }
}

/// What a suspended entry does once it is driven: writes `Given <s>` to `w`,
/// then calls `callback` and drives what it hands back for the first value.
fn given_future<EndType, Callback, Fut, W: Sink>(
    s: &str,
    callback: Callback,
    w: W,
) -> (context: GivenContext<EndType, W>)
    where Callback: FnOnce() -> Fut, Fut: FnOnce() -> EndType
    requires
        can_begin(callback),
    ensures
        context.wf(),
        context@.origin == w.log(),
        context@.script == seq![stage(Keyword::Given, s@)],
        begins(callback, context@.value),
{
    let ghost origin = w.log();
    let ghost script = seq![stage(Keyword::Given, s@)];
    let mut w = w;
    write_stage(&mut w, Keyword::Given, s);
    let pending = callback();
    let context = GivenContext {
        writer: w,
        value: pending(),
        origin: Ghost(origin),
        script: Ghost(script),
    };
    proof {
        lemma_log_of_first_stage(origin, stage(Keyword::Given, s@));
        lemma_first_stage_in_setup(s@);
    }
    context
}

/// A chain in its setup phase: it owns its sink and holds the current value.
pub struct GivenContext<T, W: Sink> {
    pub(crate) writer: W,
    pub(crate) value: T,
    pub(crate) origin: Ghost<Log>,
    pub(crate) script: Ghost<Seq<Stage>>,
}

impl<T, W: Sink> View for GivenContext<T, W> {
    type V = Progress<T>;

    open(crate) spec fn view(&self) -> Progress<T> {
        Progress { origin: self.origin@, script: self.script@, value: self.value }
    }
}

impl<T, W: Sink> GivenContext<T, W> {
    /// The sink holds what the chain has written: the log it came with and,
    /// behind it, one line for each stage of the script, in order.
    pub open(crate) spec fn sink_is_current(self) -> bool {
        self.writer.log() == self@.log()
    }

    /// The sink is current, and the script is that of a chain in its setup
    /// phase.
    pub open spec fn wf(self) -> bool {
        &&& self.sink_is_current()
        &&& in_setup(self@.script)
    }

    /// Advances to the action phase: writes `When <s>`, then transforms the
    /// value with `fut`.
    pub fn when<Closure, EndType>(
        self,
        s: &str,
        fut: Closure,
    ) -> (next: WhenContext<EndType, W>)
        where Closure: FnOnce(T) -> EndType
        requires
            self.wf(),
            fut.requires((self@.value,)),
        ensures
            next.wf(),
            self@.step(Keyword::When, s@, fut, next@),
    {
        let ghost stage = stage(Keyword::When, s@);
        let (writer, value) = advance(self.writer, self.value, Keyword::When, s, fut);
        let next = WhenContext {
            writer,
            value,
            origin: self.origin,
            script: Ghost(self.script@.push(stage)),
        };
        proof {
            lemma_log_of_next_stage(self@, stage, next@);
            lemma_phase_of_next_stage(self@.script, stage);
        }
        next
    }

    /// Advances to the action phase with a transform that suspends. The sink is
    /// handed back untouched, beside the pending computation. Once that is
    /// driven, `When <s>` is written, `fut` is applied to the value, and what
    /// `fut` hands back is driven for the new value.
    pub fn whenf<Closure, Fut, EndType>(
        self,
        s: &str,
        fut: Closure,
    ) -> (pending: Pending<W, WhenContext<EndType, W>, impl FnOnce(W) -> WhenContext<EndType, W>>)
        where Closure: FnOnce(T) -> Fut, Fut: FnOnce() -> EndType
        requires
            self.wf(),
            can_resolve(fut, self@.value),
        ensures
            pending.wf(),
            pending.held() == self@.log(),
            forall|next: WhenContext<EndType, W>| #[trigger]
                pending.yields(next) ==> next.wf() && self@.stepf(Keyword::When, s@, fut, next@),
    {
        let label = String::from_str(s);
        let ghost before = self@;
        let ghost stage = stage(Keyword::When, s@);
        let value = self.value;
        let origin = self.origin;
        let script = self.script;
        let run = move |writer: W| -> (next: WhenContext<EndType, W>)
            requires
                writer.log() == before.log(),
            ensures
                next.wf(),
                before.stepf(Keyword::When, label@, fut, next@),
        {
            let (writer, value) = advancef(writer, value, Keyword::When, label.as_str(), fut);
            let next = WhenContext { writer, value, origin, script: Ghost(script@.push(stage)) };
            proof {
                lemma_log_of_next_stage(before, stage, next@);
                lemma_phase_of_next_stage(before.script, stage);
            }
            next
        };
        Pending { writer: self.writer, run, marker: PhantomData }
    }

    /// Continues the setup: writes `And <s>`, then transforms the value with
    /// `fut`.
    pub fn and<Closure, EndType>(
        self,
        s: &str,
        fut: Closure,
    ) -> (next: GivenContext<EndType, W>)
        where Closure: FnOnce(T) -> EndType
        requires
            self.wf(),
            fut.requires((self@.value,)),
        ensures
            next.wf(),
            self@.step(Keyword::And, s@, fut, next@),
    {
        let ghost stage = stage(Keyword::And, s@);
        let (writer, value) = advance(self.writer, self.value, Keyword::And, s, fut);
        let next = GivenContext {
            writer,
            value,
            origin: self.origin,
            script: Ghost(self.script@.push(stage)),
        };
        proof {
            lemma_log_of_next_stage(self@, stage, next@);
            lemma_phase_of_next_stage(self@.script, stage);
        }
        next
    }

    /// Continues the setup with a transform that suspends. The sink is handed
    /// back untouched, beside the pending computation. Once that is driven,
    /// `And <s>` is written, `fut` is applied to the value, and what `fut`
    /// hands back is driven for the new value.
    pub fn andf<Closure, Fut, EndType>(
        self,
        s: &str,
        fut: Closure,
    ) -> (pending: Pending<W, GivenContext<EndType, W>, impl FnOnce(W) -> GivenContext<EndType, W>>)
        where Closure: FnOnce(T) -> Fut, Fut: FnOnce() -> EndType
        requires
            self.wf(),
            can_resolve(fut, self@.value),
        ensures
            pending.wf(),
            pending.held() == self@.log(),
            forall|next: GivenContext<EndType, W>| #[trigger]
                pending.yields(next) ==> next.wf() && self@.stepf(Keyword::And, s@, fut, next@),
    {
        let label = String::from_str(s);
        let ghost before = self@;
        let ghost stage = stage(Keyword::And, s@);
        let value = self.value;
        let origin = self.origin;
        let script = self.script;
        let run = move |writer: W| -> (next: GivenContext<EndType, W>)
            requires
                writer.log() == before.log(),
            ensures
                next.wf(),
                before.stepf(Keyword::And, label@, fut, next@),
        {
            let (writer, value) = advancef(writer, value, Keyword::And, label.as_str(), fut);
            let next = GivenContext { writer, value, origin, script: Ghost(script@.push(stage)) };
            proof {
                lemma_log_of_next_stage(before, stage, next@);
                lemma_phase_of_next_stage(before.script, stage);
            }
            next
        };
        Pending { writer: self.writer, run, marker: PhantomData }
    }

    /// Ends the chain here and hands back the value and the sink. The sink
    /// holds the log it came with and, behind it, the line of every stage of
    /// the chain, in order.
    pub fn into_parts(self) -> (parts: (T, W))
        requires
            self.wf(),
        ensures
            parts.0 == self@.value,
            parts.1.log() == self@.log(),
    {
        (self.value, self.writer)
    }
}

/// A suspended chain in its setup phase: the sink, and beside it a pending
/// computation that takes the sink when the chain is driven and gives a
/// `GivenContext`. Until then the sink is left as it is.
#[verifier::reject_recursive_types(T)]
#[verifier::reject_recursive_types(W)]
#[must_use]
pub struct GivenContextFuture<T, W: Sink, P: FnOnce(W) -> GivenContext<T, W>> {
    pub(crate) writer: W,
    pub(crate) context: P,
    pub(crate) origin: Ghost<Log>,
    pub(crate) script: Ghost<Seq<Stage>>,
    pub(crate) marker: PhantomData<T>,
}

impl<T, W: Sink, P: FnOnce(W) -> GivenContext<T, W>> GivenContextFuture<T, W, P> {
    /// What the sink of this chain holds now, before the chain is driven.
    pub open(crate) spec fn held(self) -> Log {
        self.writer.log()
    }

    /// The log that the sink of this chain came with when the chain began.
    pub open(crate) spec fn origin(self) -> Log {
        self.origin@
    }

    /// The stages that this chain will have gone through once it is driven.
    pub open(crate) spec fn script(self) -> Seq<Stage> {
        self.script@
    }

    /// Driving this chain may give `context`.
    pub open(crate) spec fn yields(self, context: GivenContext<T, W>) -> bool {
        self.context.ensures((self.writer,), context)
    }

    /// The chain can be driven, and whatever it gives is well formed, began
    /// with `origin` and has gone through the stages of `script`.
    pub open(crate) spec fn drivable(self) -> bool {
        &&& self.context.requires((self.writer,))
        &&& forall|context: GivenContext<T, W>| #[trigger]
            self.context.ensures((self.writer,), context) ==> {
                &&& context.wf()
                &&& context@.origin == self.origin@
                &&& context@.script == self.script@
            }
    }

    /// The chain can be driven, and its script is that of a chain in its setup
    /// phase.
    pub open spec fn wf(self) -> bool {
        &&& self.drivable()
        &&& in_setup(self.script())
    }

    /// Drives the chain to completion: the pending computation takes the sink,
    /// and every stage that was suspended writes its line and transforms the
    /// value, in the order of `script`.
    pub fn drive(self) -> (context: GivenContext<T, W>)
        requires
            self.wf(),
        ensures
            self.yields(context),
            context.wf(),
            context@.origin == self.origin(),
            context@.script == self.script(),
    {
        (self.context)(self.writer)
    }

    /// Continues the setup with a transform that suspends, without driving
    /// anything: the sink stays as it is, and once driven, the result gives
    /// what `GivenContext::andf`, driven, makes of what this chain gives.
    pub fn andf<Closure, Fut, EndType>(
        self,
        s: &str,
        fut: Closure,
    ) -> (next: GivenContextFuture<EndType, W, impl FnOnce(W) -> GivenContext<EndType, W>>)
        where Closure: FnOnce(T) -> Fut, Fut: FnOnce() -> EndType
        requires
            self.wf(),
            forall|before: GivenContext<T, W>| #[trigger]
                self.yields(before) ==> can_resolve(fut, before@.value),
        ensures
            next.wf(),
            next.held() == self.held(),
            next.origin() == self.origin(),
            next.script() == self.script().push(stage(Keyword::And, s@)),
            forall|after: GivenContext<EndType, W>| #[trigger]
                next.yields(after) ==> exists|before: GivenContext<T, W>| #[trigger]
                    self.yields(before) && before@.stepf(Keyword::And, s@, fut, after@),
    {
        let label = String::from_str(s);
        let ghost text = s@;
        let ghost sink = self.writer;
        let ghost origin = self.origin@;
        let ghost script = self.script@;
        let inner = self.context;
        proof {
            assert forall|before: GivenContext<T, W>| #[trigger]
                inner.ensures((sink,), before) implies before.wf() && before@.origin == origin
                && before@.script == script && can_resolve(fut, before@.value) by {
                assert(self.yields(before));
            }
            lemma_phase_of_next_stage(script, stage(Keyword::And, text));
        }
        let context = move |writer: W| -> (after: GivenContext<EndType, W>)
            requires
                writer == sink,
            ensures
                after.wf(),
                exists|before: GivenContext<T, W>| #[trigger]
                    inner.ensures((sink,), before)
                        && before@.stepf(Keyword::And, text, fut, after@),
        {
            let before = inner(writer);
            let pending = before.andf(label.as_str(), fut);
            pending.drive()
        };
        let next = GivenContextFuture {
            writer: self.writer,
            context,
            origin: self.origin,
            script: Ghost(script.push(stage(Keyword::And, text))),
            marker: PhantomData,
        };
        proof {
            assert forall|after: GivenContext<EndType, W>| #[trigger]
                next.yields(after) implies exists|before: GivenContext<T, W>| #[trigger]
                self.yields(before) && before@.stepf(Keyword::And, s@, fut, after@) by {
                let before = choose|before: GivenContext<T, W>| #[trigger]
                    inner.ensures((sink,), before)
                        && before@.stepf(Keyword::And, text, fut, after@);
                assert(self.yields(before));
            }
        }
        next
    }

    /// Continues the setup without driving anything: the sink stays as it is,
    /// and once driven, the result gives what `GivenContext::and` makes of what
    /// this chain gives.
    pub fn and<Closure, EndType>(
        self,
        s: &str,
        fut: Closure,
    ) -> (next: GivenContextFuture<EndType, W, impl FnOnce(W) -> GivenContext<EndType, W>>)
        where Closure: FnOnce(T) -> EndType
        requires
            self.wf(),
            forall|before: GivenContext<T, W>| #[trigger]
                self.yields(before) ==> fut.requires((before@.value,)),
        ensures
            next.wf(),
            next.held() == self.held(),
            next.origin() == self.origin(),
            next.script() == self.script().push(stage(Keyword::And, s@)),
            forall|after: GivenContext<EndType, W>| #[trigger]
                next.yields(after) ==> exists|before: GivenContext<T, W>| #[trigger]
                    self.yields(before) && before@.step(Keyword::And, s@, fut, after@),
    {
        let label = String::from_str(s);
        let ghost text = s@;
        let ghost sink = self.writer;
        let ghost origin = self.origin@;
        let ghost script = self.script@;
        let inner = self.context;
        proof {
            assert forall|before: GivenContext<T, W>| #[trigger]
                inner.ensures((sink,), before) implies before.wf() && before@.origin == origin
                && before@.script == script && fut.requires((before@.value,)) by {
                assert(self.yields(before));
            }
            lemma_phase_of_next_stage(script, stage(Keyword::And, text));
        }
        let context = move |writer: W| -> (after: GivenContext<EndType, W>)
            requires
                writer == sink,
            ensures
                after.wf(),
                exists|before: GivenContext<T, W>| #[trigger]
                    inner.ensures((sink,), before)
                        && before@.step(Keyword::And, text, fut, after@),
        {
            let before = inner(writer);
            before.and(label.as_str(), fut)
        };
        let next = GivenContextFuture {
            writer: self.writer,
            context,
            origin: self.origin,
            script: Ghost(script.push(stage(Keyword::And, text))),
            marker: PhantomData,
        };
        proof {
            assert forall|after: GivenContext<EndType, W>| #[trigger]
                next.yields(after) implies exists|before: GivenContext<T, W>| #[trigger]
                self.yields(before) && before@.step(Keyword::And, s@, fut, after@) by {
                let before = choose|before: GivenContext<T, W>| #[trigger]
                    inner.ensures((sink,), before)
                        && before@.step(Keyword::And, text, fut, after@);
                assert(self.yields(before));
            }
        }
        next
    }

    /// Advances to the action phase without driving anything: the sink stays as
    /// it is, and once driven, the result gives what `GivenContext::when` makes
    /// of what this chain gives.
    pub fn when<Closure, EndType>(
        self,
        s: &str,
        fut: Closure,
    ) -> (next: WhenContextFuture<EndType, W, impl FnOnce(W) -> WhenContext<EndType, W>>)
        where Closure: FnOnce(T) -> EndType
        requires
            self.wf(),
            forall|before: GivenContext<T, W>| #[trigger]
                self.yields(before) ==> fut.requires((before@.value,)),
        ensures
            next.wf(),
            next.held() == self.held(),
            next.origin() == self.origin(),
            next.script() == self.script().push(stage(Keyword::When, s@)),
            forall|after: WhenContext<EndType, W>| #[trigger]
                next.yields(after) ==> exists|before: GivenContext<T, W>| #[trigger]
                    self.yields(before) && before@.step(Keyword::When, s@, fut, after@),
    {
        let label = String::from_str(s);
        let ghost text = s@;
        let ghost sink = self.writer;
        let ghost origin = self.origin@;
        let ghost script = self.script@;
        let inner = self.context;
        proof {
            assert forall|before: GivenContext<T, W>| #[trigger]
                inner.ensures((sink,), before) implies before.wf() && before@.origin == origin
                && before@.script == script && fut.requires((before@.value,)) by {
                assert(self.yields(before));
            }
            lemma_phase_of_next_stage(script, stage(Keyword::When, text));
        }
        let context = move |writer: W| -> (after: WhenContext<EndType, W>)
            requires
                writer == sink,
            ensures
                after.wf(),
                exists|before: GivenContext<T, W>| #[trigger]
                    inner.ensures((sink,), before)
                        && before@.step(Keyword::When, text, fut, after@),
        {
            let before = inner(writer);
            before.when(label.as_str(), fut)
        };
        let next = WhenContextFuture {
            writer: self.writer,
            context,
            origin: self.origin,
            script: Ghost(script.push(stage(Keyword::When, text))),
            marker: PhantomData,
        };
        proof {
            assert forall|after: WhenContext<EndType, W>| #[trigger]
                next.yields(after) implies exists|before: GivenContext<T, W>| #[trigger]
                self.yields(before) && before@.step(Keyword::When, s@, fut, after@) by {
                let before = choose|before: GivenContext<T, W>| #[trigger]
                    inner.ensures((sink,), before)
                        && before@.step(Keyword::When, text, fut, after@);
                assert(self.yields(before));
            }
        }
        next
    }

    /// Advances to the action phase with a transform that suspends, without
    /// driving anything: the sink stays as it is, and once driven, the result
    /// gives what `GivenContext::whenf`, driven, makes of what this chain
    /// gives.
    pub fn whenf<Closure, Fut, EndType>(
        self,
        s: &str,
        fut: Closure,
    ) -> (next: WhenContextFuture<EndType, W, impl FnOnce(W) -> WhenContext<EndType, W>>)
        where Closure: FnOnce(T) -> Fut, Fut: FnOnce() -> EndType
        requires
            self.wf(),
            forall|before: GivenContext<T, W>| #[trigger]
                self.yields(before) ==> can_resolve(fut, before@.value),
        ensures
            next.wf(),
            next.held() == self.held(),
            next.origin() == self.origin(),
            next.script() == self.script().push(stage(Keyword::When, s@)),
            forall|after: WhenContext<EndType, W>| #[trigger]
                next.yields(after) ==> exists|before: GivenContext<T, W>| #[trigger]
                    self.yields(before) && before@.stepf(Keyword::When, s@, fut, after@),
    {
        let label = String::from_str(s);
        let ghost text = s@;
        let ghost sink = self.writer;
        let ghost origin = self.origin@;
        let ghost script = self.script@;
        let inner = self.context;
        proof {
            assert forall|before: GivenContext<T, W>| #[trigger]
                inner.ensures((sink,), before) implies before.wf() && before@.origin == origin
                && before@.script == script && can_resolve(fut, before@.value) by {
                assert(self.yields(before));
            }
            lemma_phase_of_next_stage(script, stage(Keyword::When, text));
        }
        let context = move |writer: W| -> (after: WhenContext<EndType, W>)
            requires
                writer == sink,
            ensures
                after.wf(),
                exists|before: GivenContext<T, W>| #[trigger]
                    inner.ensures((sink,), before)
                        && before@.stepf(Keyword::When, text, fut, after@),
        {
            let before = inner(writer);
            let pending = before.whenf(label.as_str(), fut);
            pending.drive()
        };
        let next = WhenContextFuture {
            writer: self.writer,
            context,
            origin: self.origin,
            script: Ghost(script.push(stage(Keyword::When, text))),
            marker: PhantomData,
        };
        proof {
            assert forall|after: WhenContext<EndType, W>| #[trigger]
                next.yields(after) implies exists|before: GivenContext<T, W>| #[trigger]
                self.yields(before) && before@.stepf(Keyword::When, s@, fut, after@) by {
                let before = choose|before: GivenContext<T, W>| #[trigger]
                    inner.ensures((sink,), before)
                        && before@.stepf(Keyword::When, text, fut, after@);
                assert(self.yields(before));
            }
        }
        next
    }
}

} // verus!
