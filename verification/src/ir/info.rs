//! Metadata records: where an entity was declared, and why an assertion was
//! generated.

use vstd::prelude::*;
use crate::ir::idx::ExprIdx;
use crate::ir::node::{Range, TimeSub};
use crate::utils::GPosIdx;

verus! {

/// Why an assertion was generated, with the positions and quantities that a
/// report of its failure shows. A reason carries no obligation itself.
#[derive(Clone, Copy, Debug, PartialEq, Eq, Structural, Hash)]
pub enum Reason {
    /// The delay of an event must be greater than zero.
    PositiveDelay { delay_loc: GPosIdx },
    /// The end of an interval must lie after its start.
    WellFormedInterval { range_loc: GPosIdx, range: Range },
    /// A bundle must not be live for longer than the delay of the event that
    /// starts its window.
    BundleDelay {
        event_delay_loc: GPosIdx,
        bundle_range_loc: GPosIdx,
        bundle_live: TimeSub,
        param_loc: GPosIdx,
        param_lo: ExprIdx,
        param_hi: ExprIdx,
    },
    /// An invoked component must not be triggered more often than its delay
    /// allows.
    EventTrig {
        callee_delay_loc: GPosIdx,
        callee_delay: TimeSub,
        caller_delay_loc: GPosIdx,
        caller_delay: TimeSub,
        bind_loc: GPosIdx,
    },
    /// The source of a connection must be live for as long as its destination
    /// needs.
    Liveness { dst_loc: GPosIdx, src_loc: GPosIdx, dst_range: Range, src_range: Range },
}

/// A metadata record.
#[derive(Clone, Copy, Debug, PartialEq, Eq, Structural, Hash)]
pub enum Info {
    Empty,
    Event { delay_loc: GPosIdx },
    Port { live_loc: GPosIdx },
    Param { bind_loc: GPosIdx },
    EventBind { bind_loc: GPosIdx },
    Connect { dst_loc: GPosIdx, src_loc: GPosIdx },
    Assert(Reason),
}

impl Reason {
    /// The sentence that states the rule behind this reason.
    pub fn message(&self) -> (msg: &'static str)
        ensures
            msg@ == self.spec_message()@,
    {
        match self {
            Reason::PositiveDelay { .. } => "delay must be greater than zero",
            Reason::WellFormedInterval { .. } => "interval must end after it starts",
            Reason::BundleDelay { .. } => "bundle must not be live for longer than the delay of its event",
            Reason::EventTrig { .. } => "event must not trigger more often than the delay of the invoked event allows",
            Reason::Liveness { .. } => "source must be live for as long as the destination requires",
        }
    }

    /// The sentence that states the rule behind this reason.
    pub open spec fn spec_message(&self) -> &'static str {
        match self {
            Reason::PositiveDelay { .. } => "delay must be greater than zero",
            Reason::WellFormedInterval { .. } => "interval must end after it starts",
            Reason::BundleDelay { .. } => "bundle must not be live for longer than the delay of its event",
            Reason::EventTrig { .. } => "event must not trigger more often than the delay of the invoked event allows",
            Reason::Liveness { .. } => "source must be live for as long as the destination requires",
        }
    }
}

} // verus!
