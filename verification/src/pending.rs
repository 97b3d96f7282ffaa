//! A pending computation that holds its sink until it is driven.

use vstd::prelude::*;
use crate::logger::{Log, Sink};
use core::marker::PhantomData;

verus! {

/// What a stage that suspends hands back: the sink, and beside it a pending
/// computation that takes the sink when it is driven. Until then the sink is
/// left as it is.
#[verifier::reject_recursive_types(W)]
#[verifier::reject_recursive_types(C)]
#[must_use]
pub struct Pending<W: Sink, C, P: FnOnce(W) -> C> {
    pub(crate) writer: W,
    pub(crate) run: P,
    pub(crate) marker: PhantomData<C>,
}

impl<W: Sink, C, P: FnOnce(W) -> C> Pending<W, C, P> {
    /// What the sink holds now, before the computation is driven.
    pub open(crate) spec fn held(self) -> Log {
        self.writer.log()
    }

    /// Driving the computation may give `end`.
    pub open(crate) spec fn yields(self, end: C) -> bool {
        self.run.ensures((self.writer,), end)
    }

    /// The computation can be driven on the sink that it holds.
    pub open(crate) spec fn wf(self) -> bool {
        self.run.requires((self.writer,))
    }

    /// Drives the computation to its end: it takes the sink and gives its
    /// result.
    pub fn drive(self) -> (end: C)
        requires
            self.wf(),
        ensures
            self.yields(end),
    {
        (self.run)(self.writer)
    }
}

} // verus!
