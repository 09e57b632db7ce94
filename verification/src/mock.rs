//! An in-memory flash controller: it obeys the commands that it is given
//! and records every access, so that the engine can be run without a device.

use vstd::prelude::*;
use crate::model::{KEY_1, KEY_2};
use crate::program::{le_value, IDLE_BYTE, MAX_CHUNK_WIDTH};
use crate::registers::{Access, FlashRegisters};

verus! {

/// The `count` low bytes of `chunk`, least significant first.
pub open spec fn chunk_bytes(chunk: u64, count: nat) -> Seq<u8>
    decreases count,
{
    if count == 0 {
        Seq::empty()
    } else {
        seq![(chunk % 256) as u8] + chunk_bytes(chunk / 256, (count - 1) as nat)
    }
}

/// `memory` with `bytes` stored from index `offset` on.
pub open spec fn stored(memory: Seq<u8>, offset: int, bytes: Seq<u8>) -> Seq<u8> {
    Seq::new(
        memory.len(),
        |i: int|
            if offset <= i < offset + bytes.len() {
                bytes[i - offset]
            } else {
                memory[i]
            },
    )
}

/// `count` idle bytes.
pub open spec fn idle_bytes(count: nat) -> Seq<u8> {
    Seq::new(count, |i: int| IDLE_BYTE)
}

/// The bytes of a chunk spell the chunk again: a chunk that `bytes` spell
/// has exactly the bytes `bytes`.
pub proof fn lemma_chunk_bytes_of_le_value(bytes: Seq<u8>)
    requires
        bytes.len() <= 8,
    ensures
        chunk_bytes(le_value(bytes) as u64, bytes.len()) == bytes,
    decreases bytes.len(),
{
    crate::program::lemma_le_value_fits(bytes);
    if bytes.len() > 0 {
        let rest = bytes.skip(1);
        crate::program::lemma_le_value_fits(rest);
        lemma_chunk_bytes_of_le_value(rest);
        let value = le_value(bytes);
        assert(value == bytes[0] + 256 * le_value(rest));
        assert(value % 256 == bytes[0] as nat && value / 256 == le_value(rest)) by {
            vstd::arithmetic::div_mod::lemma_fundamental_div_mod_converse(
                value as int,
                256,
                le_value(rest) as int,
                bytes[0] as int,
            );
        }
        assert(chunk_bytes(value as u64, bytes.len()) =~= bytes);
    } else {
        assert(chunk_bytes(le_value(bytes) as u64, 0) =~= bytes);
    }
}

/// The state of the in-memory controller.
pub struct MockState {
    /// Every access so far, oldest first.
    pub log: Seq<Access>,
    /// The address of the first byte of the flash array.
    pub base: u32,
    /// The flash array.
    pub memory: Seq<u8>,
    /// The size of a page in bytes.
    pub page_size: u32,
    /// The width of a program chunk in bytes.
    pub chunk_width: usize,
    /// The lock bit.
    pub locked: bool,
    /// How far the unlock sequence has come: 0 before the first key, 1 after
    /// it, 2 after a wrong key, which blocks the sequence until the next lock.
    pub keys_seen: u8,
    /// The controller ignores keys.
    pub keys_refused: bool,
    /// Page-erase mode.
    pub page_erase: bool,
    /// Programming mode.
    pub programming: bool,
    /// The bank selected last.
    pub bank: u8,
    /// The address of the page selected last.
    pub selected: u32,
    /// The status register.
    pub status: u32,
    /// The number of erase and program operations started so far.
    pub operations: u32,
    /// How many polls read busy after an operation has started.
    pub busy_polls: u32,
    /// How many polls will still read busy.
    pub busy_left: u32,
    /// The number of operations after which the controller stays busy for
    /// good.
    pub stuck_after: u32,
    /// The number of operations after which each operation raises
    /// `fault_bits` in the status register.
    pub faulty_after: u32,
    /// The status flags that a faulty operation raises.
    pub fault_bits: u32,
}

impl MockState {
    /// What the busy flag reads.
    pub open spec fn busy(self) -> bool {
        self.operations > self.stuck_after || self.busy_left > 0
    }

    /// The index in the flash array of the byte at `address`, if the array
    /// holds `count` bytes from there.
    pub open spec fn holds(self, address: u32, count: nat) -> bool {
        self.base <= address && address - self.base + count <= self.memory.len()
    }

    /// What a read of the byte at `address` returns: the byte of the flash
    /// array, or the idle byte outside the array.
    pub open spec fn byte_at(self, address: u32) -> u8 {
        if self.holds(address, 1) {
            self.memory[address - self.base]
        } else {
            IDLE_BYTE
        }
    }

    /// The index in the flash array of the first byte of the page that holds
    /// the selected address.
    pub open spec fn page_start(self) -> int {
        (self.selected - self.base) / (self.page_size as int) * self.page_size
    }

    /// The number of bytes of the selected page that lie in the flash array.
    pub open spec fn page_len(self) -> int {
        if self.page_start() + self.page_size <= self.memory.len() {
            self.page_size as int
        } else {
            self.memory.len() - self.page_start()
        }
    }

    /// An erase that starts now takes effect: the controller is unlocked and
    /// in page-erase mode, and the selected address lies in the flash array.
    pub open spec fn erases(self) -> bool {
        !self.locked && self.page_erase && self.page_size > 0 && self.holds(self.selected, 1)
    }

    /// A program operation at `address` takes effect: the controller is
    /// unlocked and in programming mode, and the flash array holds a chunk
    /// at `address`.
    pub open spec fn programs(self, address: u32) -> bool {
        !self.locked && self.programming && self.chunk_width <= MAX_CHUNK_WIDTH && self.holds(
            address,
            self.chunk_width as nat,
        )
    }

    /// The state once an operation has started: it is counted, the busy
    /// flag will read set `busy_polls` times, and a faulty operation has
    /// raised its status flags.
    pub open spec fn started(self) -> MockState {
        MockState {
            operations: if self.operations < u32::MAX {
                (self.operations + 1) as u32
            } else {
                self.operations
            },
            busy_left: self.busy_polls,
            status: if self.operations >= self.faulty_after {
                self.status | self.fault_bits
            } else {
                self.status
            },
            ..self
        }
    }

    /// The state after a key was written.
    pub open spec fn keyed(self, key: u32) -> MockState {
        if self.keys_refused || !self.locked {
            self
        } else if self.keys_seen == 0 && key == KEY_1 {
            MockState { keys_seen: 1, ..self }
        } else if self.keys_seen == 1 && key == KEY_2 {
            MockState { keys_seen: 0, locked: false, ..self }
        } else {
            MockState { keys_seen: 2, ..self }
        }
    }

    /// The state after `access`, apart from the log.
    pub open spec fn effect(self, access: Access) -> MockState {
        match access {
            Access::BusyRead { .. } => MockState {
                busy_left: if self.busy_left > 0 {
                    (self.busy_left - 1) as u32
                } else {
                    0
                },
                ..self
            },
            Access::StatusRead { .. } => self,
            Access::LockRead { .. } => self,
            Access::CompletionInterruptEnable => self,
            Access::StatusClear => MockState { status: 0, ..self },
            Access::KeyWrite { key } => self.keyed(key),
            Access::Lock => MockState { locked: true, keys_seen: 0, ..self },
            Access::PageErase { enable } => MockState { page_erase: enable, ..self },
            Access::BankSelect { bank } => MockState { bank, ..self },
            Access::PageSelect { address, .. } => MockState { selected: address, ..self },
            Access::EraseStart => if self.erases() {
                MockState {
                    memory: stored(
                        self.memory,
                        self.page_start(),
                        idle_bytes(self.page_len() as nat),
                    ),
                    ..self.started()
                }
            } else {
                self.started()
            },
            Access::ProgramEnable { enable } => MockState { programming: enable, ..self },
            Access::Program { address, chunk } => if self.programs(address) {
                MockState {
                    memory: stored(
                        self.memory,
                        address - self.base,
                        chunk_bytes(chunk, self.chunk_width as nat),
                    ),
                    ..self.started()
                }
            } else {
                self.started()
            },
            Access::MemoryRead { .. } => self,
        }
    }

    /// The state after `access`.
    pub open spec fn after(self, access: Access) -> MockState {
        MockState { log: self.log.push(access), ..self.effect(access) }
    }
}

/// An in-memory flash controller.
///
/// It starts locked, with a flash array of zero bytes. The two keys in
/// order unlock it; a wrong key blocks the unlock sequence until the next
/// lock. An erase sets the bytes of the selected page to the idle byte, and a
/// program operation stores the chunk's bytes, each only while the controller
/// is unlocked and in the mode for it. It can be told to stay busy for some
/// polls after each operation, to get stuck, to raise status flags, and to
/// ignore keys.
#[derive(Debug)]
pub struct MockFlash {
    log: Vec<Access>,
    base: u32,
    memory: Vec<u8>,
    page_size: u32,
    chunk_width: usize,
    locked: bool,
    keys_seen: u8,
    keys_refused: bool,
    page_erase: bool,
    programming: bool,
    bank: u8,
    selected: u32,
    status: u32,
    operations: u32,
    busy_polls: u32,
    busy_left: u32,
    stuck_after: u32,
    faulty_after: u32,
    fault_bits: u32,
}

impl View for MockFlash {
    type V = MockState;

    closed spec fn view(&self) -> MockState {
        MockState {
            log: self.log@,
            base: self.base,
            memory: self.memory@,
            page_size: self.page_size,
            chunk_width: self.chunk_width,
            locked: self.locked,
            keys_seen: self.keys_seen,
            keys_refused: self.keys_refused,
            page_erase: self.page_erase,
            programming: self.programming,
            bank: self.bank,
            selected: self.selected,
            status: self.status,
            operations: self.operations,
            busy_polls: self.busy_polls,
            busy_left: self.busy_left,
            stuck_after: self.stuck_after,
            faulty_after: self.faulty_after,
            fault_bits: self.fault_bits,
        }
    }
}

/// The state of a controller fresh from `MockFlash::new`.
pub open spec fn fresh_state(base: u32, size: usize, page_size: u32, chunk_width: usize) -> MockState {
    MockState {
        log: Seq::empty(),
        base,
        memory: Seq::new(size as nat, |i: int| 0u8),
        page_size,
        chunk_width,
        locked: true,
        keys_seen: 0,
        keys_refused: false,
        page_erase: false,
        programming: false,
        bank: 0,
        selected: 0,
        status: 0,
        operations: 0,
        busy_polls: 0,
        busy_left: 0,
        stuck_after: u32::MAX,
        faulty_after: u32::MAX,
        fault_bits: 0,
    }
}

impl MockFlash {
    /// A locked controller with a flash array of `size` zero bytes from
    /// address `base` on, pages of `page_size` bytes and chunks of
    /// `chunk_width` bytes. It is never busy and raises no status flag.
    pub fn new(base: u32, size: usize, page_size: u32, chunk_width: usize) -> (mock: MockFlash)
        ensures
            mock@ == fresh_state(base, size, page_size, chunk_width),
    {
        let mut memory: Vec<u8> = Vec::new();
        let mut i: usize = 0;
        while i < size
            invariant
                i <= size,
                memory@ == Seq::new(i as nat, |k: int| 0u8),
            decreases size - i,
        {
            memory.push(0u8);
            i += 1;
            assert(memory@ =~= Seq::new(i as nat, |k: int| 0u8));
        }
        let log: Vec<Access> = Vec::new();
        assert(log@ =~= Seq::<Access>::empty());
        MockFlash {
            log,
            base,
            memory,
            page_size,
            chunk_width,
            locked: true,
            keys_seen: 0,
            keys_refused: false,
            page_erase: false,
            programming: false,
            bank: 0,
            selected: 0,
            status: 0,
            operations: 0,
            busy_polls: 0,
            busy_left: 0,
            stuck_after: u32::MAX,
            faulty_after: u32::MAX,
            fault_bits: 0,
        }
    }

    /// Makes the busy flag read set `polls` times after each operation.
    pub fn with_busy_polls(self, polls: u32) -> (mock: MockFlash)
        ensures
            mock@ == (MockState { busy_polls: polls, ..self@ }),
    {
        let mut mock = self;
        mock.busy_polls = polls;
        mock
    }

    /// Makes the controller stay busy for good once more than `operations`
    /// operations have started.
    pub fn stuck_after(self, operations: u32) -> (mock: MockFlash)
        ensures
            mock@ == (MockState { stuck_after: operations, ..self@ }),
    {
        let mut mock = self;
        mock.stuck_after = operations;
        mock
    }

    /// Makes every operation but the first `operations` raise the status
    /// flags `bits`.
    pub fn faulty_after(self, operations: u32, bits: u32) -> (mock: MockFlash)
        ensures
            mock@ == (MockState { faulty_after: operations, fault_bits: bits, ..self@ }),
    {
        let mut mock = self;
        mock.faulty_after = operations;
        mock.fault_bits = bits;
        mock
    }

    /// Makes the controller ignore keys, as one does whose unlock sequence
    /// went wrong.
    pub fn refusing_keys(self) -> (mock: MockFlash)
        ensures
            mock@ == (MockState { keys_refused: true, ..self@ }),
    {
        let mut mock = self;
        mock.keys_refused = true;
        mock
    }

    /// Every access so far, oldest first.
    pub fn log(&self) -> (log: &Vec<Access>)
        ensures
            log@ == self@.log,
    {
        &self.log
    }

    /// The flash array.
    pub fn memory(&self) -> (memory: &Vec<u8>)
        ensures
            memory@ == self@.memory,
    {
        &self.memory
    }

    /// Whether the controller is locked.
    pub fn locked(&self) -> (locked: bool)
        ensures
            locked == self@.locked,
    {
        self.locked
    }

    /// Counts an operation that starts now.
    fn start(&mut self)
        ensures
            final(self)@ == old(self)@.started(),
    {
        if self.operations >= self.faulty_after {
            self.status = self.status | self.fault_bits;
        }
        if self.operations < u32::MAX {
            self.operations = self.operations + 1;
        }
        self.busy_left = self.busy_polls;
    }

    /// Stores `count` bytes from index `offset` of the flash array on: the
    /// low bytes of `chunk`, least significant first.
    fn store(&mut self, offset: usize, chunk: u64, count: usize)
        requires
            offset + count <= old(self)@.memory.len(),
        ensures
            final(self)@ == (MockState {
                memory: stored(old(self)@.memory, offset as int, chunk_bytes(chunk, count as nat)),
                ..old(self)@
            }),
    {
        let ghost memory = self.memory@;
        let length = self.memory.len();
        let mut rest = chunk;
        let mut i: usize = 0;
        assert(self.memory@ =~= stored(memory, offset as int, Seq::empty()));
        while i < count
            invariant
                i <= count,
                offset + count <= length == memory.len(),
                memory.len() == self.memory@.len(),
                chunk_bytes(chunk, count as nat) == chunk_bytes(chunk, i as nat) + chunk_bytes(
                    rest,
                    (count - i) as nat,
                ),
                self@ == (MockState {
                    memory: stored(memory, offset as int, chunk_bytes(chunk, i as nat)),
                    ..old(self)@
                }),
            decreases count - i,
        {
            let ghost written = chunk_bytes(chunk, i as nat);
            proof {
                lemma_chunk_bytes_len(chunk, i as nat);
                lemma_chunk_bytes_len(rest, (count - i) as nat);
            }
            let byte = (rest % 256) as u8;
            self.memory[offset + i] = byte;
            rest = rest / 256;
            i += 1;
            proof {
                lemma_chunk_bytes_len(chunk, i as nat);
                lemma_chunk_bytes_len(rest, (count - i) as nat);
                let ahead = chunk_bytes(chunk, count as nat);
                assert(ahead.len() == count) by {
                    lemma_chunk_bytes_len(chunk, count as nat);
                }
                assert(chunk_bytes(chunk, i as nat) =~= ahead.take(i as int)) by {
                    lemma_chunk_bytes_take(chunk, count as nat, i as nat);
                }
                assert(written =~= ahead.take(i - 1)) by {
                    lemma_chunk_bytes_take(chunk, count as nat, (i - 1) as nat);
                }
                assert(ahead[i - 1] == byte);
                assert(ahead =~= chunk_bytes(chunk, i as nat) + chunk_bytes(
                    rest,
                    (count - i) as nat,
                ));
                assert(self.memory@ =~= stored(memory, offset as int, chunk_bytes(chunk, i as nat)));
            }
        }
        proof {
            assert(chunk_bytes(rest, 0) =~= Seq::<u8>::empty());
            assert(chunk_bytes(chunk, count as nat) =~= chunk_bytes(chunk, i as nat));
        }
    }

    /// Sets `count` bytes from index `offset` of the flash array on to the
    /// idle byte.
    fn wipe(&mut self, offset: usize, count: usize)
        requires
            offset + count <= old(self)@.memory.len(),
        ensures
            final(self)@ == (MockState {
                memory: stored(old(self)@.memory, offset as int, idle_bytes(count as nat)),
                ..old(self)@
            }),
    {
        let ghost memory = self.memory@;
        let length = self.memory.len();
        let mut i: usize = 0;
        assert(self.memory@ =~= stored(memory, offset as int, idle_bytes(0)));
        while i < count
            invariant
                i <= count,
                offset + count <= length == memory.len(),
                memory.len() == self.memory@.len(),
                self@ == (MockState {
                    memory: stored(memory, offset as int, idle_bytes(i as nat)),
                    ..old(self)@
                }),
            decreases count - i,
        {
            self.memory[offset + i] = IDLE_BYTE;
            i += 1;
            assert(self.memory@ =~= stored(memory, offset as int, idle_bytes(i as nat)));
        }
    }
}

impl FlashRegisters for MockFlash {
    open spec fn accesses(&self) -> Seq<Access> {
        self@.log
    }

    fn is_busy(&mut self) -> (busy: bool)
        ensures
            busy == old(self)@.busy(),
            final(self)@ == old(self)@.after(Access::BusyRead { busy }),
    {
        let busy = self.operations > self.stuck_after || self.busy_left > 0;
        if self.busy_left > 0 {
            self.busy_left = self.busy_left - 1;
        }
        self.log.push(Access::BusyRead { busy });
        busy
    }

    fn read_status(&mut self) -> (bits: u32)
        ensures
            bits == old(self)@.status,
            final(self)@ == old(self)@.after(Access::StatusRead { bits }),
    {
        let bits = self.status;
        self.log.push(Access::StatusRead { bits });
        bits
    }

    fn is_locked(&mut self) -> (locked: bool)
        ensures
            locked == old(self)@.locked,
            final(self)@ == old(self)@.after(Access::LockRead { locked }),
    {
        let locked = self.locked;
        self.log.push(Access::LockRead { locked });
        locked
    }

    fn enable_completion_interrupt(&mut self)
        ensures
            final(self)@ == old(self)@.after(Access::CompletionInterruptEnable),
    {
        self.log.push(Access::CompletionInterruptEnable);
    }

    fn clear_status(&mut self)
        ensures
            final(self)@ == old(self)@.after(Access::StatusClear),
    {
        self.status = 0;
        self.log.push(Access::StatusClear);
    }

    fn write_key(&mut self, key: u32)
        ensures
            final(self)@ == old(self)@.after(Access::KeyWrite { key }),
    {
        if !self.keys_refused && self.locked {
            if self.keys_seen == 0 && key == KEY_1 {
                self.keys_seen = 1;
            } else if self.keys_seen == 1 && key == KEY_2 {
                self.keys_seen = 0;
                self.locked = false;
            } else {
                self.keys_seen = 2;
            }
        }
        self.log.push(Access::KeyWrite { key });
    }

    fn set_lock(&mut self)
        ensures
            final(self)@ == old(self)@.after(Access::Lock),
    {
        self.locked = true;
        self.keys_seen = 0;
        self.log.push(Access::Lock);
    }

    fn set_page_erase(&mut self, enable: bool)
        ensures
            final(self)@ == old(self)@.after(Access::PageErase { enable }),
    {
        self.page_erase = enable;
        self.log.push(Access::PageErase { enable });
    }

    fn select_bank(&mut self, bank: u8)
        ensures
            final(self)@ == old(self)@.after(Access::BankSelect { bank }),
    {
        self.bank = bank;
        self.log.push(Access::BankSelect { bank });
    }

    fn select_page(&mut self, page: u32, address: u32)
        ensures
            final(self)@ == old(self)@.after(Access::PageSelect { page, address }),
    {
        self.selected = address;
        self.log.push(Access::PageSelect { page, address });
    }

    fn start_erase(&mut self)
        ensures
            final(self)@ == old(self)@.after(Access::EraseStart),
    {
        let size = self.memory.len();
        if !self.locked && self.page_erase && self.page_size > 0 && self.base <= self.selected
            && ((self.selected - self.base) as usize) < size {
            let index = (self.selected - self.base) as usize;
            let page = self.page_size as usize;
            assert(index % page <= index) by {
                vstd::arithmetic::div_mod::lemma_mod_decreases(index as nat, page as nat);
            }
            let start = index - index % page;
            proof {
                vstd::arithmetic::div_mod::lemma_fundamental_div_mod(index as int, page as int);
                assert(index as int / page as int * page == page * (index as int / page as int))
                    by (nonlinear_arith);
            }
            let count = if size - start >= page {
                page
            } else {
                size - start
            };
            self.wipe(start, count);
        }
        self.start();
        self.log.push(Access::EraseStart);
    }

    fn set_program(&mut self, enable: bool)
        ensures
            final(self)@ == old(self)@.after(Access::ProgramEnable { enable }),
    {
        self.programming = enable;
        self.log.push(Access::ProgramEnable { enable });
    }

    fn program(&mut self, address: u32, chunk: u64)
        ensures
            final(self)@ == old(self)@.after(Access::Program { address, chunk }),
    {
        let size = self.memory.len();
        if !self.locked && self.programming && self.chunk_width <= MAX_CHUNK_WIDTH && self.base
            <= address && (address - self.base) as usize <= size && size - (address
            - self.base) as usize >= self.chunk_width {
            self.store((address - self.base) as usize, chunk, self.chunk_width);
        }
        self.start();
        self.log.push(Access::Program { address, chunk });
    }

    fn read_byte(&mut self, address: u32) -> (value: u8)
        ensures
            value == old(self)@.byte_at(address),
            final(self)@ == old(self)@.after(Access::MemoryRead { address, value }),
    {
        let value = if self.base <= address && ((address - self.base) as usize)
            < self.memory.len() {
            self.memory[(address - self.base) as usize]
        } else {
            IDLE_BYTE
        };
        self.log.push(Access::MemoryRead { address, value });
        value
    }
}

/// A chunk has as many bytes as are asked of it.
pub proof fn lemma_chunk_bytes_len(chunk: u64, count: nat)
    ensures
        chunk_bytes(chunk, count).len() == count,
    decreases count,
{
    if count > 0 {
        lemma_chunk_bytes_len(chunk / 256, (count - 1) as nat);
    }
}

/// The first bytes of a chunk are the same however many are asked of it, and
/// the bytes after them are those of the chunk shifted down.
pub proof fn lemma_chunk_bytes_take(chunk: u64, count: nat, first: nat)
    requires
        first <= count,
    ensures
        chunk_bytes(chunk, count).len() == count,
        chunk_bytes(chunk, count).take(first as int) == chunk_bytes(chunk, first),
    decreases first,
{
    lemma_chunk_bytes_len(chunk, count);
    lemma_chunk_bytes_len(chunk, first);
    if first > 0 {
        lemma_chunk_bytes_take(chunk / 256, (count - 1) as nat, (first - 1) as nat);
        lemma_chunk_bytes_len(chunk / 256, (count - 1) as nat);
        lemma_chunk_bytes_len(chunk / 256, (first - 1) as nat);
        assert(chunk_bytes(chunk, count).take(first as int) =~= chunk_bytes(chunk, first));
    } else {
        assert(chunk_bytes(chunk, count).take(0) =~= chunk_bytes(chunk, 0));
    }
}

} // verus!
