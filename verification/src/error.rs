//! The error type of the flash writer.

use vstd::prelude::*;

verus! {

/// Why a flash operation failed.
#[derive(Clone, Copy, Debug, PartialEq, Eq, Structural)]
pub enum FlashWriterError {
    /// The requested region is empty, misordered, or not covered by the
    /// device's banks.
    InvalidRange,
    /// The controller's register handle was not available.
    CannotGetFlashRegs,
    /// The controller was still busy when the poll budget ran out.
    BsyTimeout,
    /// An erase did not take effect.
    EraseFailed,
    /// The controller stayed locked after the unlock sequence.
    FlashLocked,
    /// A program operation did not take effect.
    WriteFailed,
    /// A page address lies in no bank of the layout.
    WrongBankId,
    /// The next chunk would not fit below the end of the region.
    OutOfFlashWriterMemory,
    /// The controller reported a programming error.
    ProgErr,
    /// The controller reported a size error.
    SizeErr,
    /// The controller reported a programming alignment error.
    PgaErr,
    /// The controller reported a programming sequence error.
    PgsErr,
    /// The controller reported a write protection error.
    WrpErr,
    /// The controller reported a fast programming data miss.
    MissErr,
    /// The controller reported a fast programming error.
    FastErr,
}

impl FlashWriterError {
    /// True of the errors that the status decoder can report.
    pub open spec fn is_status_error(self) -> bool {
        self is ProgErr || self is SizeErr || self is PgaErr || self is PgsErr || self is WrpErr
            || self is MissErr || self is FastErr
    }
}

} // verus!
