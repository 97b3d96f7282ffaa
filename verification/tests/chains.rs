use bdd::{given, given_data, given_dataf, givenf, Keyword, Log, Sink, Transcript};
use std::cell::{Cell, RefCell};
use std::rc::Rc;

/// A sink whose lines can be read while a chain still owns it.
struct Shared {
    lines: Rc<RefCell<Vec<String>>>,
}

impl Sink for Shared {
    fn log(&self) -> Log {
        unreachable!("only contracts speak of the log")
    }

    fn write_line(&mut self, line: &str) {
        self.lines.borrow_mut().push(line.to_string());
    }

    fn flush(&mut self) {}
}

fn shared() -> (Shared, Rc<RefCell<Vec<String>>>) {
    let lines = Rc::new(RefCell::new(Vec::new()));
    (Shared { lines: lines.clone() }, lines)
}

fn texts(sink: &Transcript) -> Vec<&str> {
    sink.lines().iter().map(|line| line.as_str()).collect()
}

#[test]
fn keywords_end_in_a_space() {
    assert_eq!(Keyword::Given.prefix_str(), "Given ");
    assert_eq!(Keyword::When.prefix_str(), "When ");
    assert_eq!(Keyword::Then.prefix_str(), "Then ");
    assert_eq!(Keyword::And.prefix_str(), "And ");
}

#[test]
fn pair_and_sum_scenario() {
    let (value, sink) = given_data("a first number", 2u32, Transcript::new())
        .and("a second number", |first| (first, 4u32))
        .when("they are added", |(first, second)| first + second)
        .then("the sum is six", |sum| {
            assert_eq!(sum, 6);
            sum
        })
        .into_parts();
    assert_eq!(value, 6);
    assert_eq!(
        texts(&sink),
        vec![
            "Given a first number",
            "And a second number",
            "When they are added",
            "Then the sum is six"
        ]
    );
    assert_eq!(sink.flushed(), 0);
}

#[test]
fn every_stage_writes_its_keyword() {
    let (_, sink) = given("g", || 1u8, Transcript::new())
        .and("ga", |v| v)
        .when("w", |v| v)
        .when("ww", |v| v)
        .and("wa", |v| v)
        .then("t", |v| v)
        .then("tt", |v| v)
        .and("ta", |v| v)
        .into_parts();
    assert_eq!(
        texts(&sink),
        vec!["Given g", "And ga", "When w", "When ww", "And wa", "Then t", "Then tt", "And ta"]
    );
}

#[test]
fn a_line_is_written_before_its_transform_runs() {
    let (sink, lines) = shared();
    let seen = lines.clone();
    given(
        "first",
        move || assert_eq!(*seen.borrow(), vec!["Given first".to_string()]),
        sink,
    )
    .and("second", |()| assert_eq!(lines.borrow().len(), 2))
    .when("third", |()| assert_eq!(lines.borrow().len(), 3))
    .then("fourth", |()| assert_eq!(lines.borrow().len(), 4));
    assert_eq!(lines.borrow().len(), 4);
}

#[test]
fn lines_follow_what_the_sink_came_with() {
    let mut sink = Transcript::new();
    sink.write_line("before the chain");
    sink.flush();
    let (value, sink) = given_data("a value", 7u8, sink).and("", |v| v + 1).into_parts();
    assert_eq!(value, 8);
    assert_eq!(texts(&sink), vec!["before the chain", "Given a value", "And "]);
    assert_eq!(sink.flushed(), 1);
}

#[test]
fn a_chain_may_end_in_any_phase() {
    let (value, sink) = given_data("only setup", 1u8, Transcript::new()).into_parts();
    assert_eq!(value, 1);
    assert_eq!(texts(&sink), vec!["Given only setup"]);

    let (value, sink) = given_data("setup", 1u8, Transcript::new())
        .when("action", |v| v + 1)
        .into_parts();
    assert_eq!(value, 2);
    assert_eq!(texts(&sink), vec!["Given setup", "When action"]);
}

#[test]
fn suspended_chain_matches_immediate_chain() {
    let (immediate, immediate_sink) = given("a number", || 2u32, Transcript::new())
        .and("another", |first| (first, 4u32))
        .when("added", |(first, second)| first + second)
        .and("doubled", |sum| sum * 2)
        .then("twelve", |value| value)
        .and("as text", |value| value.to_string())
        .into_parts();

    let (suspended, suspended_sink) = givenf("a number", || || 2u32, Transcript::new())
        .andf("another", |first| move || (first, 4u32))
        .whenf("added", |(first, second)| move || first + second)
        .andf("doubled", |sum| move || sum * 2)
        .thenf("twelve", |value| move || value)
        .andf("as text", |value: u32| move || value.to_string())
        .drive()
        .into_parts();

    assert_eq!(immediate, "12");
    assert_eq!(suspended, immediate);
    assert_eq!(texts(&suspended_sink), texts(&immediate_sink));
    assert_eq!(suspended_sink.lines().len(), 6);
}

#[test]
fn mixed_chain_keeps_the_order_of_its_lines() {
    let (value, sink) = given_dataf("a number", 2u32, Transcript::new())
        .and("another", |first| (first, 4u32))
        .whenf("added", |(first, second)| move || first + second)
        .and("doubled", |sum| sum * 2)
        .then("twelve", |value| value)
        .thenf("still twelve", |value| move || value)
        .and("done", |value| value)
        .drive()
        .into_parts();
    assert_eq!(value, 12);
    assert_eq!(
        texts(&sink),
        vec![
            "Given a number",
            "And another",
            "When added",
            "And doubled",
            "Then twelve",
            "Then still twelve",
            "And done"
        ]
    );
}

#[test]
fn suspended_chain_is_inert_until_driven() {
    let (sink, lines) = shared();
    let ran = Rc::new(Cell::new(0u32));
    let (first, second) = (ran.clone(), ran.clone());
    let chain = given_dataf("a number", 2u32, sink)
        .and("counted", move |value| {
            first.set(first.get() + 1);
            value
        })
        .whenf("counted again", move |value| {
            move || {
                second.set(second.get() + 1);
                value
            }
        });
    assert!(lines.borrow().is_empty());
    assert_eq!(ran.get(), 0);
    let (value, _) = chain.drive().into_parts();
    assert_eq!(value, 2);
    assert_eq!(ran.get(), 2);
    assert_eq!(
        *lines.borrow(),
        vec![
            "Given a number".to_string(),
            "And counted".to_string(),
            "When counted again".to_string()
        ]
    );
}

#[test]
fn suspended_chain_that_is_never_driven_writes_nothing() {
    let (sink, lines) = shared();
    let chain = givenf("a number", || || 2u32, sink).and("never", |value| value);
    drop(chain);
    assert!(lines.borrow().is_empty());
}

#[test]
fn suspended_entry_runs_its_producer_behind_its_line() {
    let (sink, lines) = shared();
    let called = Rc::new(Cell::new(false));
    let driven = Rc::new(Cell::new(false));
    let (call_flag, drive_flag) = (called.clone(), driven.clone());
    let seen = lines.clone();
    let chain = givenf(
        "a number",
        move || {
            assert_eq!(*seen.borrow(), vec!["Given a number".to_string()]);
            call_flag.set(true);
            move || {
                drive_flag.set(true);
                2u32
            }
        },
        sink,
    );
    assert!(!called.get());
    assert!(!driven.get());
    assert!(lines.borrow().is_empty());
    let (value, _) = chain.drive().into_parts();
    assert!(called.get());
    assert!(driven.get());
    assert_eq!(value, 2);
    assert_eq!(*lines.borrow(), vec!["Given a number".to_string()]);
}

#[test]
fn deferred_advance_holds_its_line_back_until_driven() {
    let (sink, lines) = shared();
    let chain = given_data("a", 2u8, sink)
        .when("b", |x| x + 4)
        .thenfw("c", |v| move || v * 2);
    assert_eq!(*lines.borrow(), vec!["Given a".to_string(), "When b".to_string()]);
    let (value, _) = chain.drive().into_parts();
    assert_eq!(value, 12);
    assert_eq!(
        *lines.borrow(),
        vec!["Given a".to_string(), "When b".to_string(), "Then c".to_string()]
    );
}

#[test]
fn every_suspended_stage_leaves_the_sink_alone() {
    let (sink, lines) = shared();
    let setup = given_dataf("a", 1u32, sink);
    assert!(lines.borrow().is_empty());
    let setup = setup.and("b", |v| v + 1);
    assert!(lines.borrow().is_empty());
    let setup = setup.andf("c", |v| move || v + 1);
    assert!(lines.borrow().is_empty());
    let action = setup.when("d", |v| v + 1);
    assert!(lines.borrow().is_empty());
    let action = action.and("e", |v| v + 1).andf("f", |v| move || v + 1);
    assert!(lines.borrow().is_empty());
    let outcome = action.then("g", |v| v + 1);
    assert!(lines.borrow().is_empty());
    let outcome = outcome
        .and("h", |v| v + 1)
        .andf("i", |v| move || v + 1)
        .thenf("j", |v| move || v + 1);
    assert!(lines.borrow().is_empty());
    let (value, _) = outcome.drive().into_parts();
    assert_eq!(value, 10);
    assert_eq!(
        *lines.borrow(),
        vec![
            "Given a", "And b", "And c", "When d", "And e", "And f", "Then g", "And h", "And i",
            "Then j"
        ]
    );

    let (sink, lines) = shared();
    let chain = given_dataf("a", 1u32, sink)
        .whenf("b", |v| move || v + 1)
        .thenf("c", |v| move || v + 1);
    assert!(lines.borrow().is_empty());
    let (value, _) = chain.drive().into_parts();
    assert_eq!(value, 3);
    assert_eq!(*lines.borrow(), vec!["Given a", "When b", "Then c"]);
}

#[test]
fn stage_that_suspends_does_nothing_until_driven() {
    let (sink, lines) = shared();
    let context = given_data("a number", 2u32, sink);
    assert_eq!(lines.borrow().len(), 1);
    let pending = context.andf("doubled", |value| move || value * 2);
    assert_eq!(lines.borrow().len(), 1);
    let context = pending.drive();
    assert_eq!(lines.borrow().len(), 2);
    let pending = context.whenf("plus one", |value| move || value + 1);
    assert_eq!(lines.borrow().len(), 2);
    let context = pending.drive();
    let pending = context.whenf("plus two", |value| move || value + 2);
    let context = pending.drive();
    let pending = context.thenf("seven", |value| move || value);
    assert_eq!(lines.borrow().len(), 4);
    let context = pending.drive();
    let (value, _) = context
        .thenf("still seven", |value| move || value)
        .drive()
        .into_parts();
    assert_eq!(value, 7);
    assert_eq!(
        *lines.borrow(),
        vec![
            "Given a number".to_string(),
            "And doubled".to_string(),
            "When plus one".to_string(),
            "When plus two".to_string(),
            "Then seven".to_string(),
            "Then still seven".to_string()
        ]
    );
}

#[test]
fn deferred_advance_to_outcome_stays_suspended() {
    let (sink, lines) = shared();
    let chain = given_data("a number", 2u32, sink)
        .when("doubled", |value| value * 2)
        .thenfw("four", |value| move || value)
        .and("as text", |value| value.to_string())
        .andf("with a mark", |text: String| move || text + "!")
        .thenf("marked", |text| move || text);
    assert_eq!(lines.borrow().len(), 2);
    let (value, _) = chain.drive().into_parts();
    assert_eq!(value, "4!");
    assert_eq!(
        *lines.borrow(),
        vec![
            "Given a number".to_string(),
            "When doubled".to_string(),
            "Then four".to_string(),
            "And as text".to_string(),
            "And with a mark".to_string(),
            "Then marked".to_string()
        ]
    );
}

#[test]
fn suspended_action_offers_every_stage() {
    let (value, sink) = given_dataf("a number", 1u32, Transcript::new())
        .when("plus one", |value| value + 1)
        .and("plus two", |value| value + 2)
        .andf("plus three", |value| move || value + 3)
        .then("seven", |value| value)
        .drive()
        .into_parts();
    assert_eq!(value, 7);
    assert_eq!(
        texts(&sink),
        vec!["Given a number", "When plus one", "And plus two", "And plus three", "Then seven"]
    );
}

#[test]
fn outcome_stage_goes_by_two_names() {
    let (by_name, by_name_sink) = given_data("a", 2u8, Transcript::new())
        .when("b", |v| v + 4)
        .then("c", |v| v * 2)
        .then("d", |v| v + 1)
        .and("e", |v| v + 1)
        .into_parts();
    let (by_twin, by_twin_sink) = given_data("a", 2u8, Transcript::new())
        .when("b", |v| v + 4)
        .begin_outcome("c", |v| v * 2)
        .run_stage(Keyword::Then, "d", |v| v + 1)
        .run_stage(Keyword::And, "e", |v| v + 1)
        .into_parts();
    assert_eq!(by_name, 14);
    assert_eq!(by_twin, 14);
    assert_eq!(
        texts(&by_name_sink),
        vec!["Given a", "When b", "Then c", "Then d", "And e"]
    );
    assert_eq!(texts(&by_twin_sink), texts(&by_name_sink));
}

#[test]
fn suspended_outcome_stage_goes_by_two_names() {
    let (by_name, by_name_sink) = given_dataf("a", 2u8, Transcript::new())
        .when("b", |v| v + 4)
        .then("c", |v| v * 2)
        .drive()
        .into_parts();
    let (by_twin, by_twin_sink) = given_dataf("a", 2u8, Transcript::new())
        .when("b", |v| v + 4)
        .begin_outcome("c", |v| v * 2)
        .drive()
        .into_parts();
    assert_eq!(by_name, 12);
    assert_eq!(by_twin, 12);
    assert_eq!(texts(&by_name_sink), vec!["Given a", "When b", "Then c"]);
    assert_eq!(texts(&by_twin_sink), texts(&by_name_sink));
}
