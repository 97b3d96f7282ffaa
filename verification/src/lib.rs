//! A step-chaining engine for scenarios told as Given / When / Then.
//!
//! A scenario is a chain of labelled stages. Each stage consumes the context of
//! the stage before it, writes one line to the sink that travels with the chain
//! (its keyword, a space, its label), transforms the value that the chain
//! carries, and hands on a new context, of the next value's type and of the
//! phase that the stage leads to. The phases are setup, action and outcome, and
//! a chain goes through them in this order.
//!
//! Every stage exists twice. One completes on the spot. The other suspends: it
//! hands back the sink, untouched, beside a pending computation that takes the
//! sink once it is driven, and nothing is written before that. A suspended
//! context holds the sink and the pending computation of a whole chain, takes
//! further stages without driving anything, and is driven once, at the end, by
//! `drive`. A transform that suspends is a function that hands back a closure
//! without arguments; to drive that closure is to call it.
//!
//! What a chain has done is its script: the stages it has gone through, in
//! order. The contracts say how each stage extends the script and what value it
//! leaves, and that the sink holds, behind what it came with, exactly the lines
//! of the script.

pub mod given;
pub mod logger;
pub mod outline;
pub mod pending;
pub mod stage;
pub mod then;
pub mod when;

pub use given::{given, given_data, given_dataf, givenf, GivenContext, GivenContextFuture};
pub use logger::{Log, SeparatorLogger, Sink, Transcript};
pub use outline::{outline, OutlineContext};
pub use pending::Pending;
pub use stage::{Keyword, Progress, Stage};
pub use then::{ThenContext, ThenContextFuture};
pub use when::{WhenContext, WhenContextFuture};
