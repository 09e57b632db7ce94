//! Busy gate: a bounded poll of the controller's busy flag.

use vstd::prelude::*;
use crate::error::FlashWriterError;
use crate::registers::{Access, FlashRegisters};
use crate::status::{check_errors_ram, decode_status, StatusBits};

verus! {

/// What the controller answered during one wait.
pub enum WaitOutcome {
    /// The busy flag read set `busy_polls` times and then clear; the status
    /// register then read `status`.
    Ready { busy_polls: nat, status: u32 },
    /// The busy flag read set at every poll of the budget.
    TimedOut,
}

/// `count` polls in a row that read the busy flag set.
pub open spec fn busy_reads(count: nat) -> Seq<Access> {
    Seq::new(count, |i: int| Access::BusyRead { busy: true })
}

impl WaitOutcome {
    /// A wait with a budget of `max_polls` polls can end this way.
    pub open spec fn possible(self, max_polls: nat) -> bool {
        self matches WaitOutcome::Ready { busy_polls, .. } ==> busy_polls < max_polls
    }

    /// The accesses that the wait makes.
    pub open spec fn accesses(self, max_polls: nat) -> Seq<Access> {
        match self {
            WaitOutcome::Ready { busy_polls, status } => busy_reads(busy_polls).push(
                Access::BusyRead { busy: false },
            ).push(Access::StatusRead { bits: status }),
            WaitOutcome::TimedOut => busy_reads(max_polls),
        }
    }

    /// What the wait returns.
    pub open spec fn result(self, map: StatusBits) -> Result<(), FlashWriterError> {
        match self {
            WaitOutcome::Ready { status, .. } => decode_status(status, map),
            WaitOutcome::TimedOut => Err(FlashWriterError::BsyTimeout),
        }
    }
}

/// The accesses from `before` to `after` are those of one wait that
/// returned `result`.
pub open spec fn is_wait(
    before: Seq<Access>,
    after: Seq<Access>,
    max_polls: nat,
    map: StatusBits,
    result: Result<(), FlashWriterError>,
) -> bool {
    exists|outcome: WaitOutcome|
        {
            &&& #[trigger] outcome.possible(max_polls)
            &&& after == before + outcome.accesses(max_polls)
            &&& result == outcome.result(map)
        }
}

/// Polls the busy flag until it reads clear, at most `max_polls` times. Once
/// it reads clear, reads the status register and returns what it decodes to.
/// If the flag still reads set at the last poll, returns `BsyTimeout`; with a
/// budget of zero that is at once, without a poll.
#[inline(never)]
pub fn check_bsy_sram<R: FlashRegisters>(regs: &mut R, max_polls: u32, map: &StatusBits) -> (result:
    Result<(), FlashWriterError>)
    ensures
        is_wait(old(regs).accesses(), final(regs).accesses(), max_polls as nat, *map, result),
{
    let ghost before = regs.accesses();
    let mut polls: u32 = 0;
    while polls < max_polls
        invariant
            polls <= max_polls,
            before == old(regs).accesses(),
            regs.accesses() == before + busy_reads(polls as nat),
        decreases max_polls - polls,
    {
        let busy = regs.is_busy();
        if !busy {
            let ghost polled = regs.accesses();
            let result = check_errors_ram(regs, map);
            proof {
                let bits = regs.accesses().last()->StatusRead_bits;
                let outcome = WaitOutcome::Ready { busy_polls: polls as nat, status: bits };
                assert(outcome.possible(max_polls as nat));
                assert(regs.accesses() =~= polled.push(Access::StatusRead { bits }));
                assert(regs.accesses() =~= before + outcome.accesses(max_polls as nat));
            }
            return result;
        }
        polls += 1;
        assert(regs.accesses() =~= before + busy_reads(polls as nat));
    }
    proof {
        let outcome = WaitOutcome::TimedOut;
        assert(outcome.possible(max_polls as nat));
    }
    Err(FlashWriterError::BsyTimeout)
}

} // verus!
