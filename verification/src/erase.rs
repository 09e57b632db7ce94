//! Erase engine: erases a range of addresses page by page.

use vstd::prelude::*;
use vstd::arithmetic::div_mod::lemma_div_is_ordered;
use crate::busy::{check_bsy_sram, WaitOutcome};
use crate::error::FlashWriterError;
use crate::layout::{find_bank, Bank, FlashConfig, Geometry};
use crate::registers::{Access, FlashRegisters};
use crate::stride::lemma_strides_fit;

verus! {

/// The number of page-size strides that start between `start` and `end`,
/// both included.
pub open spec fn page_count(start: u32, end: u32, page_size: nat) -> nat {
    if start > end {
        0
    } else {
        ((end - start) / (page_size as int) + 1) as nat
    }
}

/// The address at which stride `index` starts.
pub open spec fn page_address(start: u32, page_size: nat, index: int) -> int {
    start + index * page_size
}

/// The accesses of the erase of one page: page-erase mode on, the bank and
/// the page selected, the erase started, the wait for the controller, and,
/// if the wait reported success, page-erase mode off.
pub open spec fn page_accesses(
    geometry: Geometry,
    address: u32,
    bank: Bank,
    wait: WaitOutcome,
) -> Seq<Access> {
    let issue = seq![
        Access::PageErase { enable: true },
        Access::BankSelect { bank: bank.bank_index },
        Access::PageSelect { page: bank.page_number(address, geometry.page_size) as u32, address },
        Access::EraseStart,
    ];
    if wait.result(geometry.status) is Ok {
        issue + wait.accesses(geometry.max_polls) + seq![Access::PageErase { enable: false }]
    } else {
        issue + wait.accesses(geometry.max_polls)
    }
}

/// The accesses of the erases of the first pages from `start`, one for each
/// wait of `waits`.
pub open spec fn pages_accesses(geometry: Geometry, start: u32, waits: Seq<WaitOutcome>) -> Seq<
    Access,
>
    decreases waits.len(),
{
    if waits.len() == 0 {
        Seq::empty()
    } else {
        let address = page_address(start, geometry.page_size, waits.len() - 1) as u32;
        pages_accesses(geometry, start, waits.drop_last()) + page_accesses(
            geometry,
            address,
            find_bank(geometry.banks, address).unwrap(),
            waits.last(),
        )
    }
}

/// The erase of the pages from `start` to `end` can meet the waits `waits`,
/// one for each page that it got to: every page but the last of them was
/// erased with success, and the engine stopped short of the last page of the
/// range only at a failed wait or at an address that lies in no bank.
pub open spec fn erase_possible(
    geometry: Geometry,
    start: u32,
    end: u32,
    waits: Seq<WaitOutcome>,
) -> bool {
    &&& waits.len() <= page_count(start, end, geometry.page_size)
    &&& forall|i: int|
        0 <= i < waits.len() ==> {
            &&& (#[trigger] waits[i]).possible(geometry.max_polls)
            &&& find_bank(
                geometry.banks,
                page_address(start, geometry.page_size, i) as u32,
            ) is Some
        }
    &&& forall|i: int|
        0 <= i < waits.len() - 1 ==> (#[trigger] waits[i]).result(geometry.status) is Ok
    &&& waits.len() < page_count(start, end, geometry.page_size) && (waits.len() == 0
        || waits.last().result(geometry.status) is Ok) ==> find_bank(
        geometry.banks,
        page_address(start, geometry.page_size, waits.len() as int) as u32,
    ) is None
}

/// What the erase returns: the error of the last wait if it failed, success
/// if every page of the range was erased, and `WrongBankId` if the engine
/// stopped at an address that lies in no bank.
pub open spec fn erase_result(
    geometry: Geometry,
    start: u32,
    end: u32,
    waits: Seq<WaitOutcome>,
) -> Result<(), FlashWriterError> {
    if waits.len() > 0 && waits.last().result(geometry.status) is Err {
        waits.last().result(geometry.status)
    } else if waits.len() == page_count(start, end, geometry.page_size) {
        Ok(())
    } else {
        Err(FlashWriterError::WrongBankId)
    }
}

/// The accesses from `before` to `after` are those of an erase of the pages
/// from `start` to `end` that returned `result`.
pub open spec fn is_erase(
    before: Seq<Access>,
    after: Seq<Access>,
    geometry: Geometry,
    start: u32,
    end: u32,
    result: Result<(), FlashWriterError>,
) -> bool {
    exists|waits: Seq<WaitOutcome>|
        {
            &&& #[trigger] erase_possible(geometry, start, end, waits)
            &&& after == before + pages_accesses(geometry, start, waits)
            &&& result == erase_result(geometry, start, end, waits)
        }
}

/// Erases the pages that start at `start_address` and at every page size
/// from there up to `end_address`, in ascending order. For each page it looks
/// up the bank of the page's address, switches page-erase mode on, selects
/// the bank and the page, starts the erase and waits for the controller. It
/// stops at the first address that lies in no bank, with `WrongBankId` and
/// without touching the controller for that page, and at the first wait that
/// fails, with the wait's error; the pages after that one stay as they were.
#[inline(never)]
pub fn erase_sram<R: FlashRegisters>(
    regs: &mut R,
    config: &FlashConfig,
    start_address: u32,
    end_address: u32,
) -> (result: Result<(), FlashWriterError>)
    ensures
        is_erase(
            old(regs).accesses(),
            final(regs).accesses(),
            config@,
            start_address,
            end_address,
            result,
        ),
{
    let ghost before = regs.accesses();
    let ghost geometry = config@;
    let ghost mut waits: Seq<WaitOutcome> = Seq::empty();
    let page_size = config.page_size();
    if start_address > end_address {
        assert(erase_possible(geometry, start_address, end_address, waits));
        assert(regs.accesses() =~= before + pages_accesses(geometry, start_address, waits));
        return Ok(());
    }
    let mut address = start_address;
    proof {
        lemma_page_count_step(start_address, end_address, geometry.page_size, 0);
    }
    loop
        invariant
            geometry == config@,
            geometry.valid(),
            page_size == geometry.page_size,
            before == old(regs).accesses(),
            start_address <= address <= end_address,
            address == page_address(start_address, geometry.page_size, waits.len() as int),
            waits.len() < page_count(start_address, end_address, geometry.page_size),
            forall|i: int|
                0 <= i < waits.len() ==> {
                    &&& (#[trigger] waits[i]).possible(geometry.max_polls)
                    &&& waits[i].result(geometry.status) is Ok
                    &&& find_bank(
                        geometry.banks,
                        page_address(start_address, geometry.page_size, i) as u32,
                    ) is Some
                },
            regs.accesses() == before + pages_accesses(geometry, start_address, waits),
        decreases end_address - address,
    {
        let bank = match config.layout().find(address) {
            Some(bank) => bank,
            None => {
                assert(erase_possible(geometry, start_address, end_address, waits));
                return Err(FlashWriterError::WrongBankId);
            },
        };
        proof {
            lemma_page_number_fits(geometry, bank, address);
        }
        let page = bank.start_page_number + (address - bank.start_address) / page_size;
        let ghost erased = regs.accesses();
        regs.set_page_erase(true);
        regs.select_bank(bank.bank_index);
        regs.select_page(page, address);
        regs.start_erase();
        let ghost started = regs.accesses();
        let result = check_bsy_sram(regs, config.max_polls(), config.status());
        let ghost wait = choose|wait: WaitOutcome|
            {
                &&& #[trigger] wait.possible(geometry.max_polls)
                &&& regs.accesses() == started + wait.accesses(geometry.max_polls)
                &&& result == wait.result(geometry.status)
            };
        let ghost done = waits;
        proof {
            waits = waits.push(wait);
            assert(waits.drop_last() =~= done);
        }
        match result {
            Err(e) => {
                assert(regs.accesses() =~= erased + page_accesses(geometry, address, bank, wait));
                assert(regs.accesses() =~= before + pages_accesses(
                    geometry,
                    start_address,
                    waits,
                ));
                assert(erase_possible(geometry, start_address, end_address, waits));
                return Err(e);
            },
            Ok(_) => {
                regs.set_page_erase(false);
                assert(regs.accesses() =~= erased + page_accesses(geometry, address, bank, wait));
                assert(regs.accesses() =~= before + pages_accesses(
                    geometry,
                    start_address,
                    waits,
                ));
            },
        }
        proof {
            lemma_page_count_step(start_address, end_address, geometry.page_size, done.len());
            lemma_page_count_step(start_address, end_address, geometry.page_size, waits.len());
        }
        if end_address - address < page_size {
            assert(erase_possible(geometry, start_address, end_address, waits));
            return Ok(());
        }
        address += page_size;
    }
}

/// The page number of an address in a bank fits in 32 bits.
pub proof fn lemma_page_number_fits(geometry: Geometry, bank: Bank, address: u32)
    requires
        geometry.valid(),
        find_bank(geometry.banks, address) == Some(bank),
    ensures
        bank.holds(address),
        0 <= bank.page_number(address, geometry.page_size) <= u32::MAX,
{
    crate::layout::lemma_find_bank_in_extent(geometry.banks, address);
    let i = choose|i: int| 0 <= i < geometry.banks.len() && geometry.banks[i] == bank;
    assert(geometry.banks[i].page_number(geometry.banks[i].end_address, geometry.page_size)
        <= u32::MAX);
    lemma_div_is_ordered(
        address - bank.start_address,
        bank.end_address - bank.start_address,
        geometry.page_size as int,
    );
    lemma_div_is_ordered(0, address - bank.start_address, geometry.page_size as int);
}

/// Stride `index` starts at or below `end` exactly if `index` is below the
/// page count, and the stride after it starts above `end` exactly if it is
/// the last.
pub proof fn lemma_page_count_step(start: u32, end: u32, page_size: nat, index: nat)
    requires
        start <= end,
        page_size > 0,
    ensures
        page_address(start, page_size, index as int) <= end <==> index < page_count(
            start,
            end,
            page_size,
        ),
        page_address(start, page_size, index as int + 1) == page_address(start, page_size, index as int)
            + page_size,
        page_address(start, page_size, 0) == start,
{
    lemma_strides_fit(end - start, page_size as int, index as int);
    assert(0 * (page_size as int) == 0) by (nonlinear_arith);
}

/// Every address of the range lies in one of the strides that the erase
/// walks: in stride `(address - start) / page_size`, which starts at or
/// below the address and less than a page size below it. Where `start` is
/// the first address of a page, the strides are the pages of the range.
pub proof fn lemma_address_in_stride(start: u32, end: u32, page_size: nat, address: u32)
    requires
        start <= address <= end,
        page_size > 0,
    ensures
        0 <= (address - start) / (page_size as int) < page_count(start, end, page_size),
        page_address(start, page_size, (address - start) / (page_size as int)) <= address
            < page_address(start, page_size, (address - start) / (page_size as int)) + page_size,
{
    let size = page_size as int;
    let index = (address - start) / size;
    vstd::arithmetic::div_mod::lemma_fundamental_div_mod(address - start, size);
    vstd::arithmetic::div_mod::lemma_mod_bound(address - start, size);
    vstd::arithmetic::div_mod::lemma_div_is_ordered(address - start, end - start, size);
    vstd::arithmetic::div_mod::lemma_div_pos_is_pos(address - start, size);
    assert(size * index == index * size) by (nonlinear_arith);
}

} // verus!
