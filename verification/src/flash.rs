//! The flash writer: owner of the controller and of the write cursor.

use vstd::prelude::*;
use core::ops::RangeInclusive;
use crate::busy::{check_bsy_sram, WaitOutcome};
use crate::erase::erase_sram;
use crate::layout::{lemma_region_valid_in_extent, region_valid, FlashConfig};
use crate::model::{
    coalescing, is_coalesce, is_erase_run, is_flush_run, is_unlock, is_write_run,
    lemma_coalescing_end, lemma_coalescing_next, lemma_coalescing_start, lemma_coalescing_step,
    lemma_programs_accesses_push, programs_accesses, programs_possible, programs_result,
    programs_state, EraseOutcome, FlushOutcome, UnlockOutcome, WriteOutcome, WriterState, KEY_1,
    KEY_2,
};
use crate::program::{
    assemble, is_program, padded, program_accesses, write_sram, IDLE_BYTE, MAX_CHUNK_WIDTH,
};
use crate::registers::{Access, FlashRegisters};
use crate::stride::{lemma_strides_fit, lemma_strides_left};

pub use crate::error::FlashWriterError;

verus! {

/// The lower bound of a range that has not been iterated.
///
/// Calls `RangeInclusive::start`, which returns the lower bound; after the
/// range has been iterated to its end the value is unspecified.
#[verifier::external_body]
fn range_start(range: &RangeInclusive<u32>) -> (start: u32)
    ensures
        !range@.exhausted ==> start == range@.start,
{
    *range.start()
}

/// The upper bound of a range that has not been iterated.
///
/// Calls `RangeInclusive::end`, which returns the upper bound; after the
/// range has been iterated to its end the value is unspecified.
#[verifier::external_body]
fn range_end(range: &RangeInclusive<u32>) -> (end: u32)
    ensures
        !range@.exhausted ==> end == range@.end,
{
    *range.end()
}

/// Whether a range holds no value.
///
/// Calls `RangeInclusive::is_empty`, which is true of a range whose lower
/// bound is above its upper bound and of one that has been iterated to its
/// end.
#[verifier::external_body]
fn range_is_empty(range: &RangeInclusive<u32>) -> (empty: bool)
    ensures
        empty == (range@.exhausted || range@.start > range@.end),
{
    range.is_empty()
}

/// Whether both bounds of `range_check` lie in `range_cont`. Of a range that
/// has been iterated to its end the bounds are unspecified, and so is the
/// answer.
pub fn check_range(range_cont: &RangeInclusive<u32>, range_check: &RangeInclusive<u32>) -> (inside:
    bool)
    ensures
        !range_cont@.exhausted && !range_check@.exhausted ==> inside == (range_cont@.start
            <= range_check@.start <= range_cont@.end && range_cont@.start <= range_check@.end
            <= range_cont@.end),
{
    let start = range_start(range_check);
    let end = range_end(range_check);
    range_cont.contains(&start) && range_cont.contains(&end)
}

/// Copies `count` bytes of `data`, from index `from` on, into `staged`, from
/// index `at` on.
fn stage(staged: &mut [u8; 8], at: usize, data: &[u8], from: usize, count: usize)
    requires
        at + count <= MAX_CHUNK_WIDTH,
        from + count <= data@.len(),
    ensures
        final(staged)@ == old(staged)@.take(at as int) + data@.subrange(
            from as int,
            from + count,
        ) + old(staged)@.skip(at + count),
{
    let length = data.len();
    let mut i: usize = 0;
    while i < count
        invariant
            i <= count,
            at + count <= MAX_CHUNK_WIDTH,
            from + count <= length == data@.len(),
            staged@ == old(staged)@.take(at as int) + data@.subrange(from as int, from + i) + old(
                staged,
            )@.skip(at + i),
        decreases count - i,
    {
        let ghost copied = staged@;
        staged[at + i] = data[from + i];
        assert(staged@ == copied.update(at + i, data@[from + i]));
        i += 1;
        assert(staged@ =~= old(staged)@.take(at as int) + data@.subrange(from as int, from + i)
            + old(staged)@.skip(at + i));
    }
}

/// The bytes accepted by `write` that do not yet fill a chunk.
struct WriteBuff {
    data: [u8; 8],
    len: usize,
}

/// What a writer holds besides the controller: the configuration, the
/// region, the write cursor, the image length and the pending bytes.
struct WriterCore {
    config: FlashConfig,
    start_address: u32,
    end_address: u32,
    next_write_address: u32,
    image_len: usize,
    buffer: WriteBuff,
}

impl View for WriterCore {
    type V = WriterState;

    closed spec fn view(&self) -> WriterState {
        WriterState {
            geometry: self.config@,
            start_address: self.start_address,
            end_address: self.end_address,
            next_write_address: self.next_write_address,
            pending: self.buffer.data@.take(self.buffer.len as int),
            image_len: self.image_len as nat,
        }
    }
}

impl WriterCore {
    #[verifier::type_invariant]
    spec fn well_formed(&self) -> bool {
        &&& self@.valid()
        &&& self.buffer.len < self.config@.chunk_width
    }
}

/// Erases and programs one region of a device's flash.
///
/// The writer owns the controller's register handle from `new` to
/// `release_regs`; nothing else can reach the controller in between.
pub struct FlashWriter<R: FlashRegisters> {
    core: WriterCore,
    regs: R,
}

impl<R: FlashRegisters> View for FlashWriter<R> {
    type V = WriterState;

    closed spec fn view(&self) -> WriterState {
        self.core@
    }
}

impl<R: FlashRegisters> FlashWriter<R> {
    /// The controller's register handle.
    pub closed spec fn registers(&self) -> R {
        self.regs
    }

    /// Every access that the controller's register handle has made.
    pub open spec fn accesses(&self) -> Seq<Access> {
        self.registers().accesses()
    }

    /// Takes the register handle and makes a writer for the addresses of
    /// `range` on the device that `config` describes. If the range is empty
    /// or misordered, or is not covered by the device's banks, returns
    /// `InvalidRange` and leaves the controller untouched; a range that has
    /// been iterated to its end counts as empty. Else enables the
    /// end-of-operation interrupt, clears the status flags, and returns a
    /// writer with its cursor at the start of the range, no pending bytes
    /// and an image length of zero.
    pub fn new(range: RangeInclusive<u32>, regs: R, config: FlashConfig) -> (result: Result<
        FlashWriter<R>,
        FlashWriterError,
    >)
        ensures
            result is Ok <==> !range@.exhausted && region_valid(
                config@.banks,
                range@.start,
                range@.end,
            ),
            result matches Ok(writer) ==> {
                &&& writer@ == WriterState::initial(config@, range@.start, range@.end)
                &&& writer@.valid()
                &&& writer.accesses() == regs.accesses() + seq![
                    Access::CompletionInterruptEnable,
                    Access::StatusClear,
                ]
            },
            result matches Err(e) ==> e == FlashWriterError::InvalidRange,
    {
        if range_is_empty(&range) {
            return Err(FlashWriterError::InvalidRange);
        }
        let extent = config.layout().extent();
        proof {
            lemma_region_valid_in_extent(config@.banks, range@.start, range@.end);
        }
        let (low, high) = match extent {
            Some(extent) => extent,
            None => {
                return Err(FlashWriterError::InvalidRange);
            },
        };
        let flash_range = RangeInclusive::new(low, high);
        if !check_range(&flash_range, &range) {
            return Err(FlashWriterError::InvalidRange);
        }
        let start_address = range_start(&range);
        let end_address = range_end(&range);
        let width = config.chunk_width();
        let mut regs = regs;
        let ghost before = regs.accesses();
        regs.enable_completion_interrupt();
        regs.clear_status();
        assert(regs.accesses() =~= before + seq![
            Access::CompletionInterruptEnable,
            Access::StatusClear,
        ]);
        let buffer = WriteBuff { data: [0u8; 8], len: 0 };
        assert(buffer.data@.take(0) =~= Seq::<u8>::empty());
        assert(0int % (width as int) == 0);
        let core = WriterCore {
            config,
            start_address,
            end_address,
            next_write_address: start_address,
            image_len: 0,
            buffer,
        };
        Ok(FlashWriter { core, regs })
    }

    /// The first address of the writer's region.
    pub fn get_start_address(&mut self) -> (address: u32)
        ensures
            address == old(self)@.start_address,
            final(self)@ == old(self)@,
            final(self).registers() == old(self).registers(),
    {
        self.core.start_address
    }

    /// The last address of the writer's region.
    pub fn get_end_address(&self) -> (address: u32)
        ensures
            address == self@.end_address,
    {
        self.core.end_address
    }

    /// The write cursor: the address of the next chunk.
    pub fn get_next_write_address(&self) -> (address: u32)
        ensures
            address == self@.next_write_address,
            self@.valid(),
    {
        proof {
            use_type_invariant(&self.core);
        }
        self.core.next_write_address
    }

    /// The number of bytes handed to `write` so far.
    pub fn get_image_len(&self) -> (length: usize)
        ensures
            length == self@.image_len,
    {
        self.core.image_len
    }

    /// The number of bytes accepted that do not yet fill a chunk.
    pub fn get_pending_len(&self) -> (length: usize)
        ensures
            length == self@.pending.len(),
            self@.valid(),
    {
        proof {
            use_type_invariant(&self.core);
        }
        self.core.buffer.len
    }

    /// The device's configuration.
    pub fn get_config(&self) -> (config: &FlashConfig)
        ensures
            config@ == self@.geometry,
            self@.valid(),
    {
        proof {
            use_type_invariant(&self.core);
        }
        &self.core.config
    }

    /// The controller's register handle, for reading.
    pub fn get_regs(&self) -> (regs: &R)
        ensures
            *regs == self.registers(),
    {
        &self.regs
    }

    /// Sets the controller's lock bit, whatever it was.
    pub fn lock(&mut self)
        ensures
            final(self)@ == old(self)@,
            final(self).accesses() == old(self).accesses().push(Access::Lock),
    {
        self.regs.set_lock();
    }

    /// Gives the register handle back and ends the writer. Pending bytes
    /// that were not flushed are lost.
    pub fn release_regs(self) -> (regs: R)
        ensures
            regs == self.registers(),
    {
        self.regs
    }

    /// Opens the controller for erasing and programming: waits for it, and,
    /// if the lock bit reads set, writes the two keys. Returns the wait's
    /// error if it failed, and `FlashLocked` if the lock bit still reads set
    /// in the end.
    pub fn unlock(&mut self) -> (result: Result<(), FlashWriterError>)
        ensures
            old(self)@.valid(),
            final(self)@ == old(self)@,
            is_unlock(old(self).accesses(), final(self).accesses(), old(self)@.geometry, result),
    {
        proof {
            use_type_invariant(&self.core);
        }
        let ghost before = self.regs.accesses();
        let ghost geometry = self.core.config@;
        let waited = check_bsy_sram(
            &mut self.regs,
            self.core.config.max_polls(),
            self.core.config.status(),
        );
        let ghost wait = choose|wait: WaitOutcome|
            {
                &&& #[trigger] wait.possible(geometry.max_polls)
                &&& self.regs.accesses() == before + wait.accesses(geometry.max_polls)
                &&& waited == wait.result(geometry.status)
            };
        match waited {
            Err(e) => {
                proof {
                    let outcome = UnlockOutcome { wait, locked_before: false, locked_after: false };
                    assert(outcome.possible(geometry));
                    assert(self.regs.accesses() =~= before + outcome.accesses(geometry));
                }
                Err(e)
            },
            Ok(_) => {
                let locked_before = self.regs.is_locked();
                if locked_before {
                    self.regs.write_key(KEY_1);
                    self.regs.write_key(KEY_2);
                }
                let locked_after = self.regs.is_locked();
                proof {
                    let outcome = UnlockOutcome { wait, locked_before, locked_after };
                    assert(outcome.possible(geometry));
                    assert(self.regs.accesses() =~= before + outcome.accesses(geometry));
                }
                if locked_after {
                    Err(FlashWriterError::FlashLocked)
                } else {
                    Ok(())
                }
            },
        }
    }

    /// Erases the writer's region: unlocks the controller, erases the
    /// region's pages in ascending order, and locks the controller, whether
    /// or not the unlock and the erase succeeded. Returns the first error.
    pub fn erase(&mut self) -> (result: Result<(), FlashWriterError>)
        ensures
            old(self)@.valid(),
            final(self)@ == old(self)@,
            is_erase_run(old(self).accesses(), final(self).accesses(), old(self)@, result),
    {
        let ghost before = self.regs.accesses();
        let ghost state = self@;
        let unlocked = self.unlock();
        let ghost unlock = choose|unlock: UnlockOutcome|
            {
                &&& #[trigger] unlock.possible(state.geometry)
                &&& self.regs.accesses() == before + unlock.accesses(state.geometry)
                &&& unlocked == unlock.result(state.geometry)
            };
        let ghost opened = self.regs.accesses();
        let ghost mut outcome = EraseOutcome { unlock, waits: Seq::empty() };
        let result = match unlocked {
            Err(e) => Err(e),
            Ok(_) => {
                let erased = erase_sram(
                    &mut self.regs,
                    &self.core.config,
                    self.core.start_address,
                    self.core.end_address,
                );
                proof {
                    let waits = choose|waits: Seq<WaitOutcome>|
                        {
                            &&& #[trigger] crate::erase::erase_possible(
                                state.geometry,
                                state.start_address,
                                state.end_address,
                                waits,
                            )
                            &&& self.regs.accesses() == opened + crate::erase::pages_accesses(
                                state.geometry,
                                state.start_address,
                                waits,
                            )
                            &&& erased == crate::erase::erase_result(
                                state.geometry,
                                state.start_address,
                                state.end_address,
                                waits,
                            )
                        };
                    outcome = EraseOutcome { unlock, waits };
                }
                erased
            },
        };
        self.lock();
        proof {
            assert(outcome.possible(state));
            assert(self.regs.accesses() =~= before + outcome.accesses(state));
        }
        result
    }

    /// Programs `chunk` at the cursor and moves the cursor past it, if the
    /// region has room for a chunk there; else returns
    /// `OutOfFlashWriterMemory` without an access. A failed program operation
    /// leaves the cursor where it was.
    fn program_next(&mut self, chunk: u64) -> (result: Result<(), FlashWriterError>)
        ensures
            old(self)@.valid(),
            final(self)@.valid(),
            old(self)@.room() == 0 ==> {
                &&& result == Err::<(), FlashWriterError>(FlashWriterError::OutOfFlashWriterMemory)
                &&& final(self)@ == old(self)@
                &&& final(self).accesses() == old(self).accesses()
            },
            old(self)@.room() > 0 ==> {
                &&& is_program(
                    old(self).accesses(),
                    final(self).accesses(),
                    old(self)@.next_write_address,
                    chunk,
                    old(self)@.geometry,
                    result,
                )
                &&& result is Err ==> final(self)@ == old(self)@
                &&& result is Ok ==> final(self)@ == (WriterState {
                    next_write_address: old(self)@.chunk_address(1) as u32,
                    ..old(self)@
                })
            },
    {
        proof {
            use_type_invariant(&self.core);
        }
        let width = self.core.config.chunk_width();
        let ghost state = self@;
        proof {
            let span = state.end_address - state.next_write_address;
            lemma_strides_fit(span, width as int, 1);
            lemma_strides_left(
                state.next_write_address - state.start_address + width,
                width as int,
                1,
            );
            assert(1 * (width as int) == width) by (nonlinear_arith);
        }
        if self.core.end_address - self.core.next_write_address < width as u32 {
            return Err(FlashWriterError::OutOfFlashWriterMemory);
        }
        let result = write_sram(&mut self.regs, self.core.next_write_address, chunk, &self.core.config);
        if result.is_ok() {
            self.core.next_write_address = self.core.next_write_address + width as u32;
        }
        result
    }

    /// Accepts the bytes of `data` for the image, in order. Unlocks the
    /// controller, then programs every whole chunk of the stream made of the
    /// pending bytes and `data`, each at the cursor, and keeps the bytes that
    /// are left over as pending. It leaves the controller unlocked. The first
    /// error ends the call: chunks programmed before it stay programmed, and
    /// the bytes of `data` that were not programmed are dropped. The image
    /// length grows by the length of `data` whether or not the call succeeds.
    pub fn write(&mut self, data: &[u8]) -> (result: Result<(), FlashWriterError>)
        requires
            old(self)@.image_len + data@.len() <= usize::MAX,
        ensures
            old(self)@.valid(),
            final(self)@.valid(),
            is_write_run(
                old(self)@,
                old(self).accesses(),
                data@,
                final(self)@,
                final(self).accesses(),
                result,
            ),
    {
        proof {
            use_type_invariant(&self.core);
        }
        let ghost state = self@;
        let ghost before = self.regs.accesses();
        let unlocked = self.unlock();
        let ghost unlock = choose|unlock: UnlockOutcome|
            {
                &&& #[trigger] unlock.possible(state.geometry)
                &&& self.regs.accesses() == before + unlock.accesses(state.geometry)
                &&& unlocked == unlock.result(state.geometry)
            };
        let ghost opened = self.regs.accesses();
        let ghost mut outcome = WriteOutcome { unlock, waits: Seq::empty() };
        let result = match unlocked {
            Err(e) => Err(e),
            Ok(_) => {
                let coalesced = self.coalesce(data);
                proof {
                    let waits = choose|waits: Seq<WaitOutcome>|
                        {
                            &&& #[trigger] programs_possible(state, data@, waits)
                            &&& self.regs.accesses() == opened + programs_accesses(
                                state,
                                data@,
                                waits,
                            )
                            &&& coalesced == programs_result(state, data@, waits)
                            &&& self@ == programs_state(state, data@, waits)
                        };
                    outcome = WriteOutcome { unlock, waits };
                }
                coalesced
            },
        };
        proof {
            use_type_invariant(&self.core);
        }
        self.core.image_len = self.core.image_len + data.len();
        proof {
            assert(outcome.possible(state, data@));
            assert(self.regs.accesses() =~= before + outcome.accesses(state, data@));
            assert(self@ == outcome.state(state, data@));
        }
        result
    }

    /// Gathers the pending bytes and `data` into chunks and programs each
    /// whole chunk at the cursor: first the chunk that the pending bytes
    /// start, once `data` has topped them up, then the chunks that lie whole
    /// in `data`. The bytes that are left over become the pending bytes.
    /// Before each program operation it makes sure that the region has room
    /// for the chunk, and stops with `OutOfFlashWriterMemory` if it has not.
    fn coalesce(&mut self, data: &[u8]) -> (result: Result<(), FlashWriterError>)
        ensures
            is_coalesce(
                old(self)@,
                old(self).accesses(),
                data@,
                final(self)@,
                final(self).accesses(),
                result,
            ),
    {
        proof {
            use_type_invariant(&self.core);
        }
        let ghost state = self@;
        let ghost before = self.regs.accesses();
        let ghost mut waits: Seq<WaitOutcome> = Seq::empty();
        let width = self.core.config.chunk_width();
        let length = data.len();
        let mut taken: usize = 0;
        proof {
            lemma_coalescing_start(state, data@);
            assert(self.regs.accesses() =~= before + programs_accesses(state, data@, waits));
        }
        loop
            invariant
                state == old(self)@,
                before == old(self).accesses(),
                width == state.geometry.chunk_width,
                length == data@.len(),
                coalescing(state, data@, waits, taken as int, self@),
                self.regs.accesses() == before + programs_accesses(state, data@, waits),
            ensures
                length - taken < width - self@.pending.len(),
            decreases length - taken,
        {
            proof {
                use_type_invariant(&self.core);
                lemma_coalescing_next(state, data@, waits, taken as int, self@);
                lemma_coalescing_end(state, data@, waits, taken as int, self@);
            }
            let ghost current = self@;
            let ghost issued = self.regs.accesses();
            let head = self.core.buffer.len;
            assert(current.pending.len() == head);
            let need = width - head;
            if length - taken < need {
                break ;
            }
            let mut staged = self.core.buffer.data;
            let chunk = if head != 0 {
                stage(&mut staged, head, data, taken, need);
                assert(staged@.subrange(0, 0 + width) =~= current.pending + data@.subrange(
                    taken as int,
                    taken + need,
                ));
                assemble(staged.as_slice(), 0, width)
            } else {
                assert(current.pending + data@.subrange(taken as int, taken + need)
                    =~= data@.subrange(taken as int, taken + width));
                assemble(data, taken, width)
            };
            let programmed = self.program_next(chunk);
            match programmed {
                Err(e) => {
                    proof {
                        if current.room() > 0 {
                            let wait = choose|wait: WaitOutcome|
                                {
                                    &&& #[trigger] wait.possible(state.geometry.max_polls)
                                    &&& self.regs.accesses() == issued + program_accesses(
                                        current.next_write_address,
                                        chunk,
                                        wait,
                                        state.geometry,
                                    )
                                    &&& programmed == wait.result(state.geometry.status)
                                };
                            lemma_programs_accesses_push(state, data@, waits, wait);
                            assert(programs_possible(state, data@, waits.push(wait)));
                            waits = waits.push(wait);
                        }
                        assert(self.regs.accesses() =~= before + programs_accesses(
                            state,
                            data@,
                            waits,
                        ));
                    }
                    return Err(e);
                },
                Ok(_) => {
                    proof {
                        let wait = choose|wait: WaitOutcome|
                            {
                                &&& #[trigger] wait.possible(state.geometry.max_polls)
                                &&& self.regs.accesses() == issued + program_accesses(
                                    current.next_write_address,
                                    chunk,
                                    wait,
                                    state.geometry,
                                )
                                &&& programmed == wait.result(state.geometry.status)
                            };
                        lemma_programs_accesses_push(state, data@, waits, wait);
                        lemma_coalescing_step(state, data@, waits, taken as int, current, wait);
                        waits = waits.push(wait);
                        assert(self.regs.accesses() =~= before + programs_accesses(
                            state,
                            data@,
                            waits,
                        ));
                    }
                },
            }
            if head != 0 {
                self.core.buffer = WriteBuff { data: staged, len: 0 };
            }
            assert(self.core.buffer.data@.take(0) =~= Seq::<u8>::empty());
            assert(self@.pending == Seq::<u8>::empty());
            assert(self@ == (WriterState { pending: Seq::empty(), ..current.advanced(1) }));
            taken += need;
        }
        proof {
            use_type_invariant(&self.core);
            lemma_coalescing_next(state, data@, waits, taken as int, self@);
            lemma_coalescing_end(state, data@, waits, taken as int, self@);
        }
        let rest = length - taken;
        let head = self.core.buffer.len;
        let ghost kept = self@.pending;
        assert(kept.len() == head);
        let mut staged = self.core.buffer.data;
        stage(&mut staged, head, data, taken, rest);
        self.core.buffer = WriteBuff { data: staged, len: head + rest };
        proof {
            assert(data@.subrange(taken as int, taken + rest) =~= data@.skip(taken as int));
            assert(staged@.take(head + rest) =~= kept + data@.skip(taken as int));
        }
        Ok(())
    }

    /// Ends an image: programs the pending bytes, if there are any, as one
    /// last chunk, padded at the high end with idle bytes, and locks the
    /// controller, whether or not the chunk was programmed. Without pending
    /// bytes it only locks. If the region has no room for the chunk it
    /// returns `OutOfFlashWriterMemory`; after that, and after a failed
    /// program operation, the bytes stay pending.
    pub fn flush(&mut self) -> (result: Result<(), FlashWriterError>)
        ensures
            old(self)@.valid(),
            final(self)@.valid(),
            is_flush_run(
                old(self)@,
                old(self).accesses(),
                final(self)@,
                final(self).accesses(),
                result,
            ),
    {
        proof {
            use_type_invariant(&self.core);
        }
        let ghost state = self@;
        let ghost before = self.regs.accesses();
        let ghost mut outcome = FlushOutcome { wait: WaitOutcome::TimedOut };
        let pending = self.core.buffer.len;
        let result = if pending != 0 {
            let width = self.core.config.chunk_width();
            let mut staged = self.core.buffer.data;
            let mut i: usize = pending;
            while i < width
                invariant
                    pending <= i <= width <= MAX_CHUNK_WIDTH,
                    staged@.take(i as int) == state.pending + Seq::new(
                        (i - pending) as nat,
                        |k: int| IDLE_BYTE,
                    ),
                    state.pending.len() == pending,
                decreases width - i,
            {
                let ghost filled = staged@;
                staged[i] = IDLE_BYTE;
                i += 1;
                assert(staged@ == filled.update(i - 1, IDLE_BYTE));
                assert(staged@.take(i - 1) =~= filled.take(i - 1));
                assert(staged@.take(i as int) =~= staged@.take(i - 1).push(IDLE_BYTE));
                assert(staged@.take(i as int) =~= state.pending + Seq::new(
                    (i - pending) as nat,
                    |k: int| IDLE_BYTE,
                ));
            }
            assert(staged@.subrange(0, 0 + width) =~= padded(state.pending, width as nat));
            let chunk = assemble(staged.as_slice(), 0, width);
            let programmed = self.program_next(chunk);
            proof {
                if state.room() > 0 {
                    let wait = choose|wait: WaitOutcome|
                        {
                            &&& #[trigger] wait.possible(state.geometry.max_polls)
                            &&& self.regs.accesses() == before + program_accesses(
                                state.next_write_address,
                                chunk,
                                wait,
                                state.geometry,
                            )
                            &&& programmed == wait.result(state.geometry.status)
                        };
                    outcome = FlushOutcome { wait };
                }
            }
            if programmed.is_ok() {
                self.core.buffer = WriteBuff { data: staged, len: 0 };
                assert(staged@.take(0) =~= Seq::<u8>::empty());
            }
            programmed
        } else {
            assert(state.pending =~= Seq::<u8>::empty());
            Ok(())
        };
        self.lock();
        proof {
            assert(outcome.possible(state));
            assert(self.regs.accesses() =~= before + outcome.accesses(state));
            assert(self@ == outcome.state(state));
        }
        result
    }

    /// Reads `len_to_read` bytes of the flash array from `addr` upwards, one
    /// after the other. The address is not held against the writer's region.
    pub fn read(&mut self, addr: u32, len_to_read: usize) -> (bytes: Vec<u8>)
        requires
            addr + len_to_read <= 0x1_0000_0000,
        ensures
            final(self)@ == old(self)@,
            bytes@.len() == len_to_read,
            final(self).accesses() == old(self).accesses() + Seq::new(
                len_to_read as nat,
                |i: int| Access::MemoryRead { address: (addr + i) as u32, value: bytes@[i] },
            ),
    {
        let ghost before = self.regs.accesses();
        let mut bytes: Vec<u8> = Vec::new();
        let mut i: usize = 0;
        while i < len_to_read
            invariant
                i <= len_to_read,
                addr + len_to_read <= 0x1_0000_0000,
                bytes@.len() == i,
                self@ == old(self)@,
                self.regs.accesses() == before + Seq::new(
                    i as nat,
                    |k: int| Access::MemoryRead { address: (addr + k) as u32, value: bytes@[k] },
                ),
            decreases len_to_read - i,
        {
            let ghost read = bytes@;
            let value = self.regs.read_byte(addr + i as u32);
            bytes.push(value);
            i += 1;
            assert(self.regs.accesses() =~= before + Seq::new(
                i as nat,
                |k: int| Access::MemoryRead { address: (addr + k) as u32, value: bytes@[k] },
            ));
        }
        bytes
    }
}

} // verus!
