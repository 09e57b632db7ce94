//! Bank layout and device configuration: the static description of a flash.

use vstd::prelude::*;
use crate::status::StatusBits;

verus! {

/// One bank of the flash: an inclusive range of addresses, the index that
/// selects the bank in the controller, and the number of its first page.
#[derive(Clone, Copy, Debug, PartialEq, Eq, Structural)]
pub struct Bank {
    pub start_address: u32,
    pub end_address: u32,
    pub bank_index: u8,
    pub start_page_number: u32,
}

impl Bank {
    /// The bank holds `address`.
    pub open spec fn holds(self, address: u32) -> bool {
        self.start_address <= address <= self.end_address
    }

    /// The number, within this bank, of the page of `page_size` bytes that
    /// holds `address`.
    pub open spec fn page_number(self, address: u32, page_size: nat) -> int {
        self.start_page_number + (address - self.start_address) / (page_size as int)
    }
}

/// No bank is empty, and each bank starts where the one before it ends.
pub open spec fn banks_adjacent(banks: Seq<Bank>) -> bool {
    &&& forall|i: int|
        0 <= i < banks.len() ==> (#[trigger] banks[i]).start_address <= banks[i].end_address
    &&& forall|i: int|
        0 <= i < banks.len() - 1 ==> (#[trigger] banks[i]).end_address + 1 == banks[i
            + 1].start_address
}

/// The first bank that holds `address`, if any does.
pub open spec fn find_bank(banks: Seq<Bank>, address: u32) -> Option<Bank>
    decreases banks.len(),
{
    if banks.len() == 0 {
        None
    } else if banks[0].holds(address) {
        Some(banks[0])
    } else {
        find_bank(banks.skip(1), address)
    }
}

/// Every address from `start` to `end`, both included, lies in a bank.
pub open spec fn region_covered(banks: Seq<Bank>, start: u32, end: u32) -> bool {
    forall|address: u32| start <= address <= end ==> (#[trigger] find_bank(banks, address)) is Some
}

/// The region from `start` to `end`, both included, is not empty and lies
/// within the banks.
pub open spec fn region_valid(banks: Seq<Bank>, start: u32, end: u32) -> bool {
    start <= end && region_covered(banks, start, end)
}

/// The lowest and the highest address of the flash, if it has any bank.
pub open spec fn flash_extent(banks: Seq<Bank>) -> Option<(u32, u32)> {
    if banks.len() == 0 {
        None
    } else {
        Some((banks[0].start_address, banks[banks.len() - 1].end_address))
    }
}

/// The addresses from `start` to `end` lie between the lowest and the highest
/// address of the flash.
pub open spec fn within_extent(banks: Seq<Bank>, start: u32, end: u32) -> bool {
    match flash_extent(banks) {
        Some((low, high)) => low <= start && end <= high,
        None => false,
    }
}

/// Adjacent banks ascend: a later bank starts above the end of an earlier one.
pub proof fn lemma_banks_ascend(banks: Seq<Bank>, i: int, j: int)
    requires
        banks_adjacent(banks),
        0 <= i <= j < banks.len(),
    ensures
        banks[i].start_address <= banks[j].start_address,
        banks[i].end_address <= banks[j].end_address,
        i < j ==> banks[i].end_address < banks[j].start_address,
    decreases j - i,
{
    if i < j {
        lemma_banks_ascend(banks, i, j - 1);
        assert(banks[j - 1].end_address + 1 == banks[j - 1 + 1].start_address);
    }
}

/// Adjacent banks stay adjacent when the first is left out.
pub proof fn lemma_banks_adjacent_skip(banks: Seq<Bank>)
    requires
        banks_adjacent(banks),
        banks.len() > 0,
    ensures
        banks_adjacent(banks.skip(1)),
{
    let rest = banks.skip(1);
    assert forall|i: int| 0 <= i < rest.len() implies (#[trigger] rest[i]).start_address
        <= rest[i].end_address by {
        assert(rest[i] == banks[i + 1]);
    }
    assert forall|i: int| 0 <= i < rest.len() - 1 implies (#[trigger] rest[i]).end_address + 1
        == rest[i + 1].start_address by {
        assert(rest[i] == banks[i + 1]);
        assert(rest[i + 1] == banks[i + 1 + 1]);
    }
}

/// Adjacent banks cover exactly the addresses of their extent, and the bank
/// found for an address is one of the layout that holds it.
pub proof fn lemma_find_bank_in_extent(banks: Seq<Bank>, address: u32)
    requires
        banks_adjacent(banks),
    ensures
        find_bank(banks, address) is Some <==> within_extent(banks, address, address),
        find_bank(banks, address) matches Some(bank) ==> bank.holds(address) && banks.contains(
            bank,
        ),
    decreases banks.len(),
{
    if banks.len() > 0 {
        if !banks[0].holds(address) {
            let rest = banks.skip(1);
            lemma_banks_adjacent_skip(banks);
            lemma_find_bank_in_extent(rest, address);
            lemma_banks_ascend(banks, 0, banks.len() - 1);
            if rest.len() > 0 {
                assert(rest[0] == banks[1]);
                assert(rest[rest.len() - 1] == banks[banks.len() - 1]);
                assert(banks[0].end_address + 1 == banks[0int + 1].start_address);
            }
            if let Some(bank) = find_bank(rest, address) {
                let i = choose|i: int| 0 <= i < rest.len() && rest[i] == bank;
                assert(banks[i + 1] == bank);
            }
        } else {
            lemma_banks_ascend(banks, 0, banks.len() - 1);
            assert(banks[0] == banks[0]);
        }
    }
}

/// With adjacent banks a region is valid exactly if it is ordered and lies
/// within the flash extent.
pub proof fn lemma_region_valid_in_extent(banks: Seq<Bank>, start: u32, end: u32)
    requires
        banks_adjacent(banks),
    ensures
        region_valid(banks, start, end) <==> (start <= end && within_extent(banks, start, end)),
{
    if start <= end {
        lemma_find_bank_in_extent(banks, start);
        lemma_find_bank_in_extent(banks, end);
        if within_extent(banks, start, end) {
            assert forall|address: u32| start <= address <= end implies (#[trigger] find_bank(
                banks,
                address,
            )) is Some by {
                lemma_find_bank_in_extent(banks, address);
            }
        }
    }
}

/// The banks of a device, in address order.
#[derive(Debug)]
pub struct BankLayout {
    banks: Vec<Bank>,
}

impl View for BankLayout {
    type V = Seq<Bank>;

    closed spec fn view(&self) -> Seq<Bank> {
        self.banks@
    }
}

impl BankLayout {
    #[verifier::type_invariant]
    spec fn adjacent(&self) -> bool {
        banks_adjacent(self.banks@)
    }

    /// A layout of the given banks, or `None` unless no bank is empty and
    /// each starts where the one before it ends.
    pub fn new(banks: Vec<Bank>) -> (layout: Option<BankLayout>)
        ensures
            layout is Some <==> banks_adjacent(banks@),
            layout matches Some(l) ==> l@ == banks@,
    {
        let mut i: usize = 0;
        while i < banks.len()
            invariant
                i <= banks.len(),
                banks_adjacent(banks@.take(i as int)),
            decreases banks.len() - i,
        {
            let bank = banks[i];
            if bank.start_address > bank.end_address {
                return None;
            }
            if i > 0 {
                let before = banks[i - 1];
                if before.end_address == u32::MAX || before.end_address + 1 != bank.start_address {
                    assert(banks@[i - 1].end_address + 1 != banks@[i - 1 + 1].start_address);
                    return None;
                }
            }
            assert(banks@.take(i + 1) =~= banks@.take(i as int).push(bank));
            i += 1;
        }
        assert(banks@.take(i as int) =~= banks@);
        Some(BankLayout { banks })
    }

    /// A layout of one bank, with index 0 and pages numbered from 0, that
    /// spans the addresses from `start_address` to `end_address`; `None` if
    /// they are misordered.
    pub fn single(start_address: u32, end_address: u32) -> (layout: Option<BankLayout>)
        ensures
            layout is Some <==> start_address <= end_address,
            layout matches Some(l) ==> l@ == seq![
                Bank { start_address, end_address, bank_index: 0, start_page_number: 0 },
            ],
    {
        if start_address > end_address {
            return None;
        }
        let mut banks: Vec<Bank> = Vec::new();
        banks.push(Bank { start_address, end_address, bank_index: 0, start_page_number: 0 });
        assert(banks@ =~= seq![
            Bank { start_address, end_address, bank_index: 0, start_page_number: 0 },
        ]);
        Some(BankLayout { banks })
    }

    /// The number of banks.
    pub fn len(&self) -> (count: usize)
        ensures
            count == self@.len(),
    {
        self.banks.len()
    }

    /// The bank at position `index`, counted in address order.
    pub fn bank(&self, index: usize) -> (bank: Bank)
        requires
            index < self@.len(),
        ensures
            bank == self@[index as int],
    {
        self.banks[index]
    }

    /// The bank that holds `address`, or `None` if the address lies outside
    /// the flash.
    pub fn find(&self, address: u32) -> (bank: Option<Bank>)
        ensures
            bank == find_bank(self@, address),
    {
        let mut i: usize = 0;
        assert(self@.skip(0) =~= self@);
        while i < self.banks.len()
            invariant
                i <= self.banks.len(),
                find_bank(self@, address) == find_bank(self@.skip(i as int), address),
            decreases self.banks.len() - i,
        {
            let bank = self.banks[i];
            if bank.start_address <= address && address <= bank.end_address {
                assert(self@.skip(i as int)[0] == bank);
                return Some(bank);
            }
            assert(self@.skip(i as int).skip(1) =~= self@.skip(i + 1));
            i += 1;
        }
        None
    }

    /// The lowest and the highest address of the flash, or `None` for a
    /// layout without banks.
    pub fn extent(&self) -> (extent: Option<(u32, u32)>)
        ensures
            extent == flash_extent(self@),
            banks_adjacent(self@),
    {
        proof {
            use_type_invariant(self);
        }
        let count = self.banks.len();
        if count == 0 {
            None
        } else {
            Some((self.banks[0].start_address, self.banks[count - 1].end_address))
        }
    }
}

/// What the engine reads of a device configuration.
pub struct Geometry {
    /// The width in bytes of a program chunk.
    pub chunk_width: nat,
    /// The size in bytes of a page, the unit of erasure.
    pub page_size: nat,
    /// The largest number of polls of one wait for the controller.
    pub max_polls: nat,
    /// Where the status register keeps its error flags.
    pub status: StatusBits,
    /// The banks, in address order.
    pub banks: Seq<Bank>,
}

impl Geometry {
    /// The chunk is 2, 4 or 8 bytes wide, a page is not empty, the banks are
    /// adjacent, and every page number fits in 32 bits.
    pub open spec fn valid(self) -> bool {
        &&& self.chunk_width == 2 || self.chunk_width == 4 || self.chunk_width == 8
        &&& self.page_size > 0
        &&& self.page_size <= u32::MAX
        &&& self.max_polls <= u32::MAX
        &&& banks_adjacent(self.banks)
        &&& forall|i: int|
            0 <= i < self.banks.len() ==> (#[trigger] self.banks[i]).page_number(
                self.banks[i].end_address,
                self.page_size,
            ) <= u32::MAX
    }
}

/// The configuration of a device family: the chunk width, the page size, the
/// poll budget of a wait, the layout of the status register and the banks.
#[derive(Debug)]
pub struct FlashConfig {
    chunk_width: usize,
    page_size: u32,
    max_polls: u32,
    status: StatusBits,
    layout: BankLayout,
}

impl View for FlashConfig {
    type V = Geometry;

    closed spec fn view(&self) -> Geometry {
        Geometry {
            chunk_width: self.chunk_width as nat,
            page_size: self.page_size as nat,
            max_polls: self.max_polls as nat,
            status: self.status,
            banks: self.layout@,
        }
    }
}

/// The base address of the flash of an STM32F0 device.
pub const STM32F0_FLASH_BASE: u32 = 0x0800_0000;

/// The page size of an STM32F0 device.
pub const STM32F0_PAGE_SIZE: u32 = 1024;

/// The chunk width of an STM32F0 device: it programs half-words.
pub const STM32F0_CHUNK_WIDTH: usize = 2;

/// The programming error flag of the STM32F0 status register.
pub const STM32F0_PGERR: u32 = 0x0000_0004;

/// The write protection error flag of the STM32F0 status register.
pub const STM32F0_WRPRTERR: u32 = 0x0000_0010;

impl FlashConfig {
    #[verifier::type_invariant]
    spec fn well_formed(&self) -> bool {
        self@.valid()
    }

    /// A configuration of the given parts, or `None` unless the chunk width
    /// is 2, 4 or 8, the page size is positive and the number of every page
    /// fits in 32 bits.
    pub fn new(
        chunk_width: usize,
        page_size: u32,
        max_polls: u32,
        status: StatusBits,
        layout: BankLayout,
    ) -> (config: Option<FlashConfig>)
        ensures
            config is Some <==> (Geometry {
                chunk_width: chunk_width as nat,
                page_size: page_size as nat,
                max_polls: max_polls as nat,
                status,
                banks: layout@,
            }).valid(),
            config matches Some(c) ==> c@ == (Geometry {
                chunk_width: chunk_width as nat,
                page_size: page_size as nat,
                max_polls: max_polls as nat,
                status,
                banks: layout@,
            }),
    {
        let extent = layout.extent();
        if !(chunk_width == 2 || chunk_width == 4 || chunk_width == 8) || page_size == 0 {
            return None;
        }
        let mut i: usize = 0;
        while i < layout.len()
            invariant
                i <= layout@.len(),
                page_size > 0,
                banks_adjacent(layout@),
                forall|k: int|
                    0 <= k < i ==> (#[trigger] layout@[k]).page_number(
                        layout@[k].end_address,
                        page_size as nat,
                    ) <= u32::MAX,
            decreases layout@.len() - i,
        {
            let bank = layout.bank(i);
            assert(bank.start_address <= bank.end_address);
            let pages = (bank.end_address - bank.start_address) / page_size;
            if pages > u32::MAX - bank.start_page_number {
                return None;
            }
            i += 1;
        }
        Some(FlashConfig { chunk_width, page_size, max_polls, status, layout })
    }

    /// The configuration of an STM32F0 device with `flash_size_kb` kilobytes
    /// of flash and a budget of `max_polls` polls for each wait: one bank
    /// from `STM32F0_FLASH_BASE`, pages of 1024 bytes, half-word chunks, and
    /// the programming and write protection error flags. `None` for a
    /// device without flash.
    pub fn stm32f0(flash_size_kb: u16, max_polls: u32) -> (config: Option<FlashConfig>)
        ensures
            config is Some <==> flash_size_kb > 0,
            config matches Some(c) ==> c@ == stm32f0_geometry(flash_size_kb, max_polls),
    {
        if flash_size_kb == 0 {
            return None;
        }
        let size: u32 = flash_size_kb as u32 * 1024;
        let end_address: u32 = STM32F0_FLASH_BASE + (size - 1);
        let status = StatusBits {
            program_error: STM32F0_PGERR,
            size_error: 0,
            alignment_error: 0,
            page_sequence_error: 0,
            write_protect_error: STM32F0_WRPRTERR,
            miss_error: 0,
            fast_program_error: 0,
        };
        match BankLayout::single(STM32F0_FLASH_BASE, end_address) {
            Some(layout) => {
                let config = FlashConfig::new(
                    STM32F0_CHUNK_WIDTH,
                    STM32F0_PAGE_SIZE,
                    max_polls,
                    status,
                    layout,
                );
                proof {
                    let geometry = stm32f0_geometry(flash_size_kb, max_polls);
                    assert(layout@ =~= geometry.banks);
                    assert(geometry.valid());
                }
                config
            },
            None => None,
        }
    }

    /// The width in bytes of a program chunk.
    pub fn chunk_width(&self) -> (width: usize)
        ensures
            width == self@.chunk_width,
            self@.valid(),
    {
        proof {
            use_type_invariant(self);
        }
        self.chunk_width
    }

    /// The size in bytes of a page.
    pub fn page_size(&self) -> (size: u32)
        ensures
            size == self@.page_size,
            self@.valid(),
    {
        proof {
            use_type_invariant(self);
        }
        self.page_size
    }

    /// The largest number of polls of one wait.
    pub fn max_polls(&self) -> (polls: u32)
        ensures
            polls == self@.max_polls,
            self@.valid(),
    {
        proof {
            use_type_invariant(self);
        }
        self.max_polls
    }

    /// Where the status register keeps its error flags.
    pub fn status(&self) -> (status: &StatusBits)
        ensures
            *status == self@.status,
            self@.valid(),
    {
        proof {
            use_type_invariant(self);
        }
        &self.status
    }

    /// The banks of the device.
    pub fn layout(&self) -> (layout: &BankLayout)
        ensures
            layout@ == self@.banks,
            self@.valid(),
    {
        proof {
            use_type_invariant(self);
        }
        &self.layout
    }
}

/// What `FlashConfig::stm32f0` describes.
pub open spec fn stm32f0_geometry(flash_size_kb: u16, max_polls: u32) -> Geometry {
    Geometry {
        chunk_width: 2,
        page_size: 1024,
        max_polls: max_polls as nat,
        status: StatusBits {
            program_error: 0x0000_0004,
            size_error: 0,
            alignment_error: 0,
            page_sequence_error: 0,
            write_protect_error: 0x0000_0010,
            miss_error: 0,
            fast_program_error: 0,
        },
        banks: seq![
            Bank {
                start_address: 0x0800_0000,
                end_address: (0x0800_0000 + flash_size_kb * 1024 - 1) as u32,
                bank_index: 0,
                start_page_number: 0,
            },
        ],
    }
}

} // verus!
