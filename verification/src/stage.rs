//! The vocabulary of a chain: keywords, stages, and what a chain has done so
//! far.

use vstd::prelude::*;
use crate::logger::{Log, Sink};

verus! {

/// The word that opens the line of a stage.
#[derive(Clone, Copy, Debug)]
pub enum Keyword {
    /// Opens the setup phase.
    Given,
    /// Opens the action phase.
    When,
    /// Opens the outcome phase.
    Then,
    /// Continues the phase the chain is in.
    And,
}

impl Keyword {
    /// The keyword as it stands at the start of a line, with the space that
    /// parts it from the label.
    pub open spec fn prefix(self) -> Seq<char> {
        match self {
            Keyword::Given => "Given "@,
            Keyword::When => "When "@,
            Keyword::Then => "Then "@,
            Keyword::And => "And "@,
        }
    }

    /// The text of `prefix`.
    pub fn prefix_str(self) -> (word: &'static str)
        ensures
            word@ == self.prefix(),
    {
        match self {
            Keyword::Given => "Given ",
            Keyword::When => "When ",
            Keyword::Then => "Then ",
            Keyword::And => "And ",
        }
    }
}

/// A transform that suspends can be applied to `value`: it takes `value`, and
/// whatever pending computation it hands back can be driven.
pub open spec fn can_resolve<T, E, Fut: FnOnce() -> E, F: FnOnce(T) -> Fut>(
    fut: F,
    value: T,
) -> bool {
    &&& fut.requires((value,))
    &&& forall|pending: Fut| #[trigger] fut.ensures((value,), pending) ==> pending.requires(())
}

/// Applying a transform that suspends to `value` and driving what it hands back
/// may give `end`.
pub open spec fn resolves<T, E, Fut: FnOnce() -> E, F: FnOnce(T) -> Fut>(
    fut: F,
    value: T,
    end: E,
) -> bool {
    exists|pending: Fut| #[trigger] fut.ensures((value,), pending) && pending.ensures((), end)
}

/// A producer that suspends can be called, and whatever pending computation it
/// hands back can be driven.
pub open spec fn can_begin<E, Fut: FnOnce() -> E, F: FnOnce() -> Fut>(callback: F) -> bool {
    &&& callback.requires(())
    &&& forall|pending: Fut| #[trigger] callback.ensures((), pending) ==> pending.requires(())
}

/// Calling a producer that suspends and driving what it hands back may give
/// `value`.
pub open spec fn begins<E, Fut: FnOnce() -> E, F: FnOnce() -> Fut>(callback: F, value: E) -> bool {
    exists|pending: Fut| #[trigger] callback.ensures((), pending) && pending.ensures((), value)
}

/// One stage of a chain, as the log shows it: its keyword and its label.
pub struct Stage {
    pub keyword: Keyword,
    pub label: Seq<char>,
}

impl Stage {
    /// The line this stage writes: the keyword, a space, the label.
    pub open spec fn line(self) -> Seq<char> {
        self.keyword.prefix() + self.label
    }
}

/// The stage with this keyword and this label.
pub open spec fn stage(keyword: Keyword, label: Seq<char>) -> Stage {
    Stage { keyword, label }
}

/// The lines of a script, stage by stage.
pub open spec fn narrate(script: Seq<Stage>) -> Seq<Seq<char>> {
    script.map_values(|stage: Stage| stage.line())
}

/// Some stage of the script has this keyword.
pub open spec fn mentions(script: Seq<Stage>, keyword: Keyword) -> bool {
    exists|i: int| 0 <= i < script.len() && (#[trigger] script[i]).keyword == keyword
}

/// The script tells a scenario in order: it opens with `Given`, no later stage
/// is a `Given`, and once a `Then` is told no `When` follows.
pub open spec fn in_order(script: Seq<Stage>) -> bool {
    &&& script.len() > 0
    &&& script[0].keyword == Keyword::Given
    &&& forall|i: int| 0 < i < script.len() ==> (#[trigger] script[i]).keyword != Keyword::Given
    &&& forall|i: int, j: int|
        0 <= i < j < script.len() && (#[trigger] script[i]).keyword == Keyword::Then
            ==> (#[trigger] script[j]).keyword != Keyword::When
}

/// The script of a chain in its setup phase: told in order, and neither a
/// `When` nor a `Then` yet.
pub open spec fn in_setup(script: Seq<Stage>) -> bool {
    &&& in_order(script)
    &&& !mentions(script, Keyword::When)
    &&& !mentions(script, Keyword::Then)
}

/// The script of a chain in its action phase: told in order, with a `When` and
/// no `Then` yet.
pub open spec fn in_action(script: Seq<Stage>) -> bool {
    &&& in_order(script)
    &&& mentions(script, Keyword::When)
    &&& !mentions(script, Keyword::Then)
}

/// The script of a chain in its outcome phase: told in order, with a `When`
/// and, after it, a `Then`.
pub open spec fn in_outcome(script: Seq<Stage>) -> bool {
    &&& in_order(script)
    &&& mentions(script, Keyword::When)
    &&& mentions(script, Keyword::Then)
}

/// Where a chain stands: the log its sink came with, the stages it has gone
/// through since, oldest first, and the value it holds now.
pub struct Progress<T> {
    pub origin: Log,
    pub script: Seq<Stage>,
    pub value: T,
}

impl<T> Progress<T> {
    /// The log of the chain's sink: the lines it came with, then one line for
    /// each stage of the script, in order. A chain never flushes.
    pub open spec fn log(self) -> Log {
        Log { lines: self.origin.lines + narrate(self.script), flushed: self.origin.flushed }
    }

    /// `next` is where the chain may stand after one more stage that transforms
    /// the value with `f` on the spot.
    pub open spec fn step<E, F: FnOnce(T) -> E>(
        self,
        keyword: Keyword,
        label: Seq<char>,
        f: F,
        next: Progress<E>,
    ) -> bool {
        &&& next.origin == self.origin
        &&& next.script == self.script.push(stage(keyword, label))
        &&& f.ensures((self.value,), next.value)
    }

    /// `next` is where the chain may stand after one more stage whose transform
    /// `fut` suspends and has been driven.
    pub open spec fn stepf<E, Fut: FnOnce() -> E, F: FnOnce(T) -> Fut>(
        self,
        keyword: Keyword,
        label: Seq<char>,
        fut: F,
        next: Progress<E>,
    ) -> bool {
        &&& next.origin == self.origin
        &&& next.script == self.script.push(stage(keyword, label))
        &&& resolves(fut, self.value, next.value)
    }
}

/// Builds the line of a stage and writes it to `writer`.
pub(crate) fn write_stage<W: Sink>(writer: &mut W, keyword: Keyword, label: &str)
    ensures
        final(writer).log() == old(writer).log().write((stage(keyword, label@)).line()),
{
    let line = String::from_str(keyword.prefix_str()).concat(label);
    writer.write_line(line.as_str());
}

/// One stage on the spot: writes the line of the stage, then transforms the
/// value.
pub(crate) fn advance<T, E, W: Sink, F: FnOnce(T) -> E>(
    writer: W,
    value: T,
    keyword: Keyword,
    label: &str,
    fut: F,
) -> (out: (W, E))
    requires
        fut.requires((value,)),
    ensures
        out.0.log() == writer.log().write((stage(keyword, label@)).line()),
        fut.ensures((value,), out.1),
{
    let mut writer = writer;
    write_stage(&mut writer, keyword, label);
    (writer, fut(value))
}

/// One stage whose transform suspends: writes the line of the stage, applies
/// the transform, then drives what it handed back.
pub(crate) fn advancef<T, E, W: Sink, Fut: FnOnce() -> E, F: FnOnce(T) -> Fut>(
    writer: W,
    value: T,
    keyword: Keyword,
    label: &str,
    fut: F,
) -> (out: (W, E))
    requires
        can_resolve(fut, value),
    ensures
        out.0.log() == writer.log().write((stage(keyword, label@)).line()),
        resolves(fut, value, out.1),
{
    let mut writer = writer;
    write_stage(&mut writer, keyword, label);
    let pending = fut(value);
    (writer, pending())
}

/// The first stage adds one line to the end of what the sink came with.
pub proof fn lemma_log_of_first_stage(origin: Log, first: Stage)
    ensures
        (Progress { origin, script: seq![first], value: () }).log() == origin.write(first.line()),
{
    let progress = Progress { origin, script: seq![first], value: () };
    assert(narrate(progress.script) =~= seq![first.line()]);
    assert(progress.log().lines =~= origin.lines.push(first.line()));
}

/// One more stage adds one line to the end of what the script has written.
pub proof fn lemma_log_of_next_stage<T, E>(before: Progress<T>, stage: Stage, after: Progress<E>)
    requires
        after.origin == before.origin,
        after.script == before.script.push(stage),
    ensures
        after.log() == before.log().write(stage.line()),
{
    assert(narrate(after.script) =~= narrate(before.script).push(stage.line()));
    assert(after.log().lines =~= before.log().lines.push(stage.line()));
}

/// A script of one `Given` stage is the script of a chain in its setup phase.
pub proof fn lemma_first_stage_in_setup(label: Seq<char>)
    ensures
        in_setup(seq![stage(Keyword::Given, label)]),
{
}

/// The phases follow one another as the stages are told: `And` stays in the
/// phase, `When` leads from setup into action and stays there, `Then` leads
/// from action into outcome and stays there.
pub proof fn lemma_phase_of_next_stage(script: Seq<Stage>, next: Stage)
    ensures
        in_setup(script) && next.keyword == Keyword::And ==> in_setup(script.push(next)),
        in_setup(script) && next.keyword == Keyword::When ==> in_action(script.push(next)),
        in_action(script) && (next.keyword == Keyword::And || next.keyword == Keyword::When)
            ==> in_action(script.push(next)),
        in_action(script) && next.keyword == Keyword::Then ==> in_outcome(script.push(next)),
        in_outcome(script) && (next.keyword == Keyword::And || next.keyword == Keyword::Then)
            ==> in_outcome(script.push(next)),
{
    let longer = script.push(next);
    assert forall|keyword: Keyword| mentions(script, keyword) implies mentions(longer, keyword) by {
        let i = choose|i: int| 0 <= i < script.len() && (#[trigger] script[i]).keyword == keyword;
        assert(longer[i].keyword == keyword);
    }
    assert forall|keyword: Keyword|
        mentions(longer, keyword) && next.keyword != keyword implies mentions(script, keyword) by {
        let i = choose|i: int| 0 <= i < longer.len() && (#[trigger] longer[i]).keyword == keyword;
        assert(script[i].keyword == keyword);
    }
    assert(longer[script.len() as int].keyword == next.keyword);
    if in_order(script) && next.keyword != Keyword::Given && (next.keyword == Keyword::When
        ==> !mentions(script, Keyword::Then)) {
        lemma_order_of_next_stage(script, next);
    }
}

/// A script told in order stays in order with one more stage, unless that stage
/// is a `Given`, or a `When` behind a `Then`.
proof fn lemma_order_of_next_stage(script: Seq<Stage>, next: Stage)
    requires
        in_order(script),
        next.keyword != Keyword::Given,
        next.keyword == Keyword::When ==> !mentions(script, Keyword::Then),
    ensures
        in_order(script.push(next)),
{
    let longer = script.push(next);
    assert forall|i: int, j: int|
        0 <= i < j < longer.len() && (#[trigger] longer[i]).keyword
            == Keyword::Then implies (#[trigger] longer[j]).keyword != Keyword::When by {
        assert(script[i].keyword == Keyword::Then);
        if j < script.len() {
            assert(script[j].keyword != Keyword::When);
        }
    }
}

/// The lines of a chain stand in the order of its stages. Behind the lines that
/// the sink came with there is exactly one line for each stage of the script,
/// in the order of the script, and each is the keyword of its stage, a space
/// and the label of its stage. This holds whatever stages of the chain were
/// suspended. A chain flushes nothing.
pub proof fn lemma_lines_follow_script<T>(progress: Progress<T>)
    ensures
        progress.log().lines.len() == progress.origin.lines.len() + progress.script.len(),
        forall|i: int|
            0 <= i < progress.origin.lines.len() ==> progress.log().lines[i]
                == progress.origin.lines[i],
        forall|i: int|
            0 <= i < progress.script.len() ==> progress.log().lines[progress.origin.lines.len() + i]
                == progress.script[i].keyword.prefix() + progress.script[i].label,
        progress.log().flushed == progress.origin.flushed,
{
}

/// Whole chains write alike. Two chains that began with the same log and have
/// gone through the same stages hold the same log, whatever their values are
/// and whichever of their stages were suspended and driven later.
pub proof fn lemma_same_script_same_log<T, U>(one: Progress<T>, other: Progress<U>)
    requires
        one.origin == other.origin,
        one.script == other.script,
    ensures
        one.log() == other.log(),
{
}

/// A stage whose transform suspends ends where the same stage ends with a
/// transform that gives on the spot whatever the first gives once it is driven:
/// the same line is written and the same value is held.
pub proof fn lemma_suspending_stage_is_stage<T, E, Fut, F, G>(
    before: Progress<T>,
    keyword: Keyword,
    label: Seq<char>,
    fut: F,
    f: G,
    after: Progress<E>,
)
    where Fut: FnOnce() -> E, F: FnOnce(T) -> Fut, G: FnOnce(T) -> E
    requires
        before.stepf(keyword, label, fut, after),
        forall|value: T, end: E| resolves(fut, value, end) ==> f.ensures((value,), end),
    ensures
        before.step(keyword, label, f, after),
        after.log() == before.log().write(stage(keyword, label).line()),
{
    lemma_log_of_next_stage(before, stage(keyword, label), after);
}

/// Immediate and suspended stages end alike. Of two chains that stand alike and
/// go through a stage with the same keyword and the same label, one with a
/// transform that suspends and one with a transform that runs on the spot, both
/// end with the same lines in the log and the same value, provided that the two
/// transforms agree: what the first gives once it is driven is what the second
/// gives.
pub proof fn lemma_suspended_stage_ends_as_immediate<T, E, Fut, F, G>(
    before: Progress<T>,
    keyword: Keyword,
    label: Seq<char>,
    fut: F,
    f: G,
    suspended: Progress<E>,
    immediate: Progress<E>,
)
    where Fut: FnOnce() -> E, F: FnOnce(T) -> Fut, G: FnOnce(T) -> E
    requires
        before.stepf(keyword, label, fut, suspended),
        before.step(keyword, label, f, immediate),
        forall|value: T, end: E, other: E|
            resolves(fut, value, end) && f.ensures((value,), other) ==> end == other,
    ensures
        suspended == immediate,
        suspended.log() == immediate.log(),
{
}

} // verus!
