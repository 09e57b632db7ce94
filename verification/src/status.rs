//! Status decoder: from a snapshot of the status register to an outcome.

use vstd::prelude::*;
use crate::error::FlashWriterError;
use crate::registers::{Access, FlashRegisters};

verus! {

/// Where a device family keeps its error flags in the status register: one
/// mask per error kind, zero for a kind that the family does not report.
#[derive(Clone, Copy, Debug, PartialEq, Eq, Structural)]
pub struct StatusBits {
    pub program_error: u32,
    pub size_error: u32,
    pub alignment_error: u32,
    pub page_sequence_error: u32,
    pub write_protect_error: u32,
    pub miss_error: u32,
    pub fast_program_error: u32,
}

/// True if any bit of `mask` is set in `bits`.
pub open spec fn flagged(bits: u32, mask: u32) -> bool {
    bits & mask != 0
}

/// The outcome that a status snapshot stands for: the first error kind, in
/// the order of the fields of `StatusBits`, whose flag is set. Bits outside
/// every mask are ignored.
pub open spec fn decode_status(bits: u32, map: StatusBits) -> Result<(), FlashWriterError> {
    if flagged(bits, map.program_error) {
        Err(FlashWriterError::ProgErr)
    } else if flagged(bits, map.size_error) {
        Err(FlashWriterError::SizeErr)
    } else if flagged(bits, map.alignment_error) {
        Err(FlashWriterError::PgaErr)
    } else if flagged(bits, map.page_sequence_error) {
        Err(FlashWriterError::PgsErr)
    } else if flagged(bits, map.write_protect_error) {
        Err(FlashWriterError::WrpErr)
    } else if flagged(bits, map.miss_error) {
        Err(FlashWriterError::MissErr)
    } else if flagged(bits, map.fast_program_error) {
        Err(FlashWriterError::FastErr)
    } else {
        Ok(())
    }
}

/// Decodes a snapshot of the status register.
pub fn check_errors(bits: u32, map: &StatusBits) -> (result: Result<(), FlashWriterError>)
    ensures
        result == decode_status(bits, *map),
{
    if bits & map.program_error != 0 {
        return Err(FlashWriterError::ProgErr);
    }
    if bits & map.size_error != 0 {
        return Err(FlashWriterError::SizeErr);
    }
    if bits & map.alignment_error != 0 {
        return Err(FlashWriterError::PgaErr);
    }
    if bits & map.page_sequence_error != 0 {
        return Err(FlashWriterError::PgsErr);
    }
    if bits & map.write_protect_error != 0 {
        return Err(FlashWriterError::WrpErr);
    }
    if bits & map.miss_error != 0 {
        return Err(FlashWriterError::MissErr);
    }
    if bits & map.fast_program_error != 0 {
        return Err(FlashWriterError::FastErr);
    }
    Ok(())
}

/// Reads the status register once and decodes what it holds.
#[inline(never)]
pub fn check_errors_ram<R: FlashRegisters>(regs: &mut R, map: &StatusBits) -> (result: Result<
    (),
    FlashWriterError,
>)
    ensures
        final(regs).accesses().len() == old(regs).accesses().len() + 1,
        final(regs).accesses().drop_last() == old(regs).accesses(),
        final(regs).accesses().last() matches Access::StatusRead { bits } && result
            == decode_status(bits, *map),
{
    let bits = regs.read_status();
    check_errors(bits, map)
}

/// The decoder reports success or one of the seven status errors, never
/// another kind.
pub proof fn lemma_decode_status_kinds(bits: u32, map: StatusBits)
    ensures
        decode_status(bits, map) matches Err(e) ==> e.is_status_error(),
{
}

/// A snapshot with no flag of the map set decodes to success, and only
/// such a snapshot does.
pub proof fn lemma_decode_status_ok(bits: u32, map: StatusBits)
    ensures
        decode_status(bits, map) is Ok <==> !flagged(bits, map.program_error) && !flagged(
            bits,
            map.size_error,
        ) && !flagged(bits, map.alignment_error) && !flagged(bits, map.page_sequence_error)
            && !flagged(bits, map.write_protect_error) && !flagged(bits, map.miss_error)
            && !flagged(bits, map.fast_program_error),
{
}

} // verus!
