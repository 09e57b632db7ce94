//! Program chunks: their assembly from bytes and the program operation.

use vstd::prelude::*;
use crate::busy::{check_bsy_sram, WaitOutcome};
use crate::error::FlashWriterError;
use crate::layout::{FlashConfig, Geometry};
use crate::registers::{Access, FlashRegisters};

verus! {

/// The value that erased flash reads as, byte by byte; it pads a last chunk.
pub const IDLE_BYTE: u8 = 0xFF;

/// The widest program chunk, in bytes.
pub const MAX_CHUNK_WIDTH: usize = 8;

/// The number that `bytes` spell in little-endian order.
pub open spec fn le_value(bytes: Seq<u8>) -> nat
    decreases bytes.len(),
{
    if bytes.len() == 0 {
        0
    } else {
        bytes[0] as nat + 256 * le_value(bytes.skip(1))
    }
}

/// `width` bytes: `bytes`, then idle bytes.
pub open spec fn padded(bytes: Seq<u8>, width: nat) -> Seq<u8> {
    bytes + Seq::new((width - bytes.len()) as nat, |i: int| IDLE_BYTE)
}

/// The chunk that up to eight bytes spell, least significant byte first.
pub open spec fn chunk_of(bytes: Seq<u8>) -> u64 {
    le_value(bytes) as u64
}

/// A little-endian number of `n` bytes is below 256 to the `n`.
pub proof fn lemma_le_value_bound(bytes: Seq<u8>)
    ensures
        le_value(bytes) < vstd::arithmetic::power::pow(256, bytes.len()),
    decreases bytes.len(),
{
    reveal(vstd::arithmetic::power::pow);
    if bytes.len() > 0 {
        lemma_le_value_bound(bytes.skip(1));
    }
}

/// Up to eight bytes spell a number that fits in 64 bits.
pub proof fn lemma_le_value_fits(bytes: Seq<u8>)
    requires
        bytes.len() <= 8,
    ensures
        le_value(bytes) <= u64::MAX,
        bytes.len() <= 7 ==> le_value(bytes) < 0x0100_0000_0000_0000,
{
    lemma_le_value_bound(bytes);
    let n = bytes.len();
    reveal_with_fuel(vstd::arithmetic::power::pow, 9);
    assert(vstd::arithmetic::power::pow(256, 0) == 1);
    assert(vstd::arithmetic::power::pow(256, 1) == 256);
    assert(vstd::arithmetic::power::pow(256, 2) == 0x1_0000);
    assert(vstd::arithmetic::power::pow(256, 3) == 0x100_0000);
    assert(vstd::arithmetic::power::pow(256, 4) == 0x1_0000_0000);
    assert(vstd::arithmetic::power::pow(256, 5) == 0x100_0000_0000);
    assert(vstd::arithmetic::power::pow(256, 6) == 0x1_0000_0000_0000);
    assert(vstd::arithmetic::power::pow(256, 7) == 0x100_0000_0000_0000);
    assert(vstd::arithmetic::power::pow(256, 8) == 0x1_0000_0000_0000_0000);
}

/// Assembles the chunk that the `width` bytes of `bytes` from `offset` on
/// spell, least significant byte first.
pub fn assemble(bytes: &[u8], offset: usize, width: usize) -> (chunk: u64)
    requires
        width <= MAX_CHUNK_WIDTH,
        offset + width <= bytes@.len(),
    ensures
        chunk == chunk_of(bytes@.subrange(offset as int, offset + width)),
{
    let ghost group = bytes@.subrange(offset as int, offset + width);
    let length = bytes.len();
    let mut chunk: u64 = 0;
    let mut i: usize = width;
    assert(group.skip(width as int) =~= Seq::<u8>::empty());
    while i > 0
        invariant
            i <= width <= MAX_CHUNK_WIDTH,
            offset + width <= length == bytes@.len(),
            group == bytes@.subrange(offset as int, offset + width),
            chunk == le_value(group.skip(i as int)),
        decreases i,
    {
        i -= 1;
        proof {
            lemma_le_value_fits(group.skip(i + 1));
            assert(group.skip(i as int).skip(1) =~= group.skip(i + 1));
            assert(group.skip(i as int)[0] == bytes@[offset + i]);
        }
        chunk = chunk * 256 + bytes[offset + i] as u64;
    }
    assert(group.skip(0) =~= group);
    proof {
        lemma_le_value_fits(group);
    }
    chunk
}

/// The accesses of one program operation: programming mode on, the chunk
/// written to the flash array, the wait for the controller, and, if the wait
/// reported success, programming mode off.
pub open spec fn program_accesses(
    address: u32,
    chunk: u64,
    wait: WaitOutcome,
    geometry: Geometry,
) -> Seq<Access> {
    let issue = seq![Access::ProgramEnable { enable: true }, Access::Program { address, chunk }];
    if wait.result(geometry.status) is Ok {
        issue + wait.accesses(geometry.max_polls) + seq![Access::ProgramEnable { enable: false }]
    } else {
        issue + wait.accesses(geometry.max_polls)
    }
}

/// The accesses from `before` to `after` are those of one program operation
/// that wrote `chunk` at `address` and returned `result`.
pub open spec fn is_program(
    before: Seq<Access>,
    after: Seq<Access>,
    address: u32,
    chunk: u64,
    geometry: Geometry,
    result: Result<(), FlashWriterError>,
) -> bool {
    exists|wait: WaitOutcome|
        {
            &&& #[trigger] wait.possible(geometry.max_polls)
            &&& after == before + program_accesses(address, chunk, wait, geometry)
            &&& result == wait.result(geometry.status)
        }
}

/// Programs one chunk: switches programming mode on, writes `data` to the
/// flash array at `address` and waits for the controller. If the wait reports
/// success, switches programming mode off; else returns the wait's error at
/// once.
#[inline(never)]
pub fn write_sram<R: FlashRegisters>(
    regs: &mut R,
    address: u32,
    data: u64,
    config: &FlashConfig,
) -> (result: Result<(), FlashWriterError>)
    ensures
        is_program(old(regs).accesses(), final(regs).accesses(), address, data, config@, result),
{
    let ghost before = regs.accesses();
    regs.set_program(true);
    regs.program(address, data);
    let ghost issued = regs.accesses();
    let result = check_bsy_sram(regs, config.max_polls(), config.status());
    let ghost wait = choose|wait: WaitOutcome|
        {
            &&& #[trigger] wait.possible(config@.max_polls)
            &&& regs.accesses() == issued + wait.accesses(config@.max_polls)
            &&& result == wait.result(config@.status)
        };
    match result {
        Err(e) => {
            assert(regs.accesses() =~= before + program_accesses(address, data, wait, config@));
            Err(e)
        },
        Ok(_) => {
            regs.set_program(false);
            assert(regs.accesses() =~= before + program_accesses(address, data, wait, config@));
            Ok(())
        },
    }
}

} // verus!
