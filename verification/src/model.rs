//! The flash writer as a function of what the controller answers.
//!
//! The writer decides everything but the values that the controller returns
//! when it is read. An outcome holds those values for one operation. Given
//! the writer's state and an outcome, the functions of this module say which
//! accesses the operation makes, what it returns, and the state that it
//! leaves.

use vstd::prelude::*;
use crate::busy::WaitOutcome;
use crate::erase::{erase_possible, erase_result, pages_accesses};
use crate::error::FlashWriterError;
use crate::layout::{region_valid, Geometry};
use crate::program::{chunk_of, padded, program_accesses};
use crate::registers::Access;
use crate::stride::{lemma_strides_fit, lemma_strides_left};

verus! {

/// The first key of the unlock sequence.
pub const KEY_1: u32 = 0x45670123;

/// The second key of the unlock sequence.
pub const KEY_2: u32 = 0xCDEF89AB;

/// The state of a flash writer, but for the controller that it owns.
pub struct WriterState {
    /// The device's configuration.
    pub geometry: Geometry,
    /// The first address of the region.
    pub start_address: u32,
    /// The last address of the region.
    pub end_address: u32,
    /// The write cursor: where the next chunk goes.
    pub next_write_address: u32,
    /// The bytes accepted that do not yet fill a chunk, oldest first.
    pub pending: Seq<u8>,
    /// The number of bytes handed to `write` so far.
    pub image_len: nat,
}

impl WriterState {
    /// The configuration is valid, the region lies within the banks, the
    /// cursor lies in the region a whole number of chunks above its start,
    /// and the pending bytes do not fill a chunk.
    pub open spec fn valid(self) -> bool {
        &&& self.geometry.valid()
        &&& region_valid(self.geometry.banks, self.start_address, self.end_address)
        &&& self.start_address <= self.next_write_address <= self.end_address
        &&& (self.next_write_address - self.start_address) % (self.geometry.chunk_width as int)
            == 0
        &&& self.pending.len() < self.geometry.chunk_width
    }

    /// The number of chunks that fit between the cursor and the end of the
    /// region. Chunk `index` after the cursor may be programmed exactly if
    /// `index` is below it, that is, if the chunk's address is at most
    /// `end_address - chunk_width`.
    pub open spec fn room(self) -> nat {
        ((self.end_address - self.next_write_address) / (self.geometry.chunk_width as int)) as nat
    }

    /// The address of chunk `index`, counted from the cursor.
    pub open spec fn chunk_address(self, index: int) -> int {
        self.next_write_address + index * self.geometry.chunk_width
    }

    /// The bytes that `write` works on: the pending bytes, then `data`.
    pub open spec fn stream(self, data: Seq<u8>) -> Seq<u8> {
        self.pending + data
    }

    /// The number of whole chunks in the stream.
    pub open spec fn full_chunks(self, data: Seq<u8>) -> nat {
        (self.stream(data).len() / self.geometry.chunk_width) as nat
    }

    /// The bytes of chunk `index` of the stream.
    pub open spec fn chunk_bytes(self, data: Seq<u8>, index: int) -> Seq<u8> {
        self.stream(data).subrange(
            index * self.geometry.chunk_width,
            index * self.geometry.chunk_width + self.geometry.chunk_width,
        )
    }

    /// The bytes of the stream after its last whole chunk.
    pub open spec fn leftover(self, data: Seq<u8>) -> Seq<u8> {
        self.stream(data).skip((self.full_chunks(data) * self.geometry.chunk_width) as int)
    }

    /// This state with the cursor `count` chunks further.
    pub open spec fn advanced(self, count: nat) -> WriterState {
        WriterState { next_write_address: self.chunk_address(count as int) as u32, ..self }
    }

    /// The state of a new writer for the region from `start` to `end`.
    pub open spec fn initial(geometry: Geometry, start: u32, end: u32) -> WriterState {
        WriterState {
            geometry,
            start_address: start,
            end_address: end,
            next_write_address: start,
            pending: Seq::empty(),
            image_len: 0,
        }
    }
}

/// Moving the cursor by no more chunks than the region has room for keeps
/// the state valid and takes as many chunks off the room.
pub proof fn lemma_advanced(state: WriterState, count: nat)
    requires
        state.valid(),
        count <= state.room(),
    ensures
        state.next_write_address <= state.chunk_address(count as int) <= state.end_address,
        state.advanced(count).valid(),
        state.advanced(count).room() == state.room() - count,
        state.advanced(count).chunk_address(1) == state.chunk_address(count as int + 1),
        state.advanced(0) == state,
        count < state.room() <==> state.chunk_address(count as int) + state.geometry.chunk_width
            <= state.end_address,
{
    let width = state.geometry.chunk_width as int;
    let span = state.end_address - state.next_write_address;
    lemma_strides_fit(span, width, count as int);
    lemma_strides_fit(span, width, count as int + 1);
    lemma_strides_fit(span, width, 0);
    lemma_strides_left(span, width, count as int);
    lemma_strides_left(
        state.next_write_address - state.start_address + count * width,
        width,
        count as int,
    );
    assert(1 * width == width) by (nonlinear_arith);
    assert(0 * width == 0) by (nonlinear_arith);
}

/// What the controller answered during an unlock.
pub struct UnlockOutcome {
    /// The wait that comes first.
    pub wait: WaitOutcome,
    /// The lock bit as it read before the keys.
    pub locked_before: bool,
    /// The lock bit as it read at the end.
    pub locked_after: bool,
}

impl UnlockOutcome {
    /// An unlock can end this way.
    pub open spec fn possible(self, geometry: Geometry) -> bool {
        self.wait.possible(geometry.max_polls)
    }

    /// The accesses of the unlock: the wait and, if it reported success, a
    /// read of the lock bit, the two keys if the bit read set, and a second
    /// read of the lock bit.
    pub open spec fn accesses(self, geometry: Geometry) -> Seq<Access> {
        let keys = if self.locked_before {
            seq![Access::KeyWrite { key: KEY_1 }, Access::KeyWrite { key: KEY_2 }]
        } else {
            Seq::empty()
        };
        if self.wait.result(geometry.status) is Ok {
            self.wait.accesses(geometry.max_polls) + seq![
                Access::LockRead { locked: self.locked_before },
            ] + keys + seq![Access::LockRead { locked: self.locked_after }]
        } else {
            self.wait.accesses(geometry.max_polls)
        }
    }

    /// What the unlock returns: the wait's error, else `FlashLocked` if the
    /// lock bit read set at the end, else success.
    pub open spec fn result(self, geometry: Geometry) -> Result<(), FlashWriterError> {
        match self.wait.result(geometry.status) {
            Err(e) => Err(e),
            Ok(_) => if self.locked_after {
                Err(FlashWriterError::FlashLocked)
            } else {
                Ok(())
            },
        }
    }
}

/// The accesses from `before` to `after` are those of an unlock that
/// returned `result`.
pub open spec fn is_unlock(
    before: Seq<Access>,
    after: Seq<Access>,
    geometry: Geometry,
    result: Result<(), FlashWriterError>,
) -> bool {
    exists|outcome: UnlockOutcome|
        {
            &&& #[trigger] outcome.possible(geometry)
            &&& after == before + outcome.accesses(geometry)
            &&& result == outcome.result(geometry)
        }
}

/// What the controller answered during `erase`.
pub struct EraseOutcome {
    /// The unlock that comes first.
    pub unlock: UnlockOutcome,
    /// The waits of the pages that the erase got to, in order.
    pub waits: Seq<WaitOutcome>,
}

impl EraseOutcome {
    /// An `erase` of a writer in state `state` can end this way.
    pub open spec fn possible(self, state: WriterState) -> bool {
        &&& self.unlock.possible(state.geometry)
        &&& self.unlock.result(state.geometry) is Ok ==> erase_possible(
            state.geometry,
            state.start_address,
            state.end_address,
            self.waits,
        )
    }

    /// The accesses of the `erase`: the unlock, the erases of the pages if the
    /// unlock succeeded, and the lock.
    pub open spec fn accesses(self, state: WriterState) -> Seq<Access> {
        let pages = if self.unlock.result(state.geometry) is Ok {
            pages_accesses(state.geometry, state.start_address, self.waits)
        } else {
            Seq::empty()
        };
        self.unlock.accesses(state.geometry) + pages + seq![Access::Lock]
    }

    /// What the `erase` returns: the unlock's error, else what the erase of
    /// the pages returns.
    pub open spec fn result(self, state: WriterState) -> Result<(), FlashWriterError> {
        match self.unlock.result(state.geometry) {
            Err(e) => Err(e),
            Ok(_) => erase_result(
                state.geometry,
                state.start_address,
                state.end_address,
                self.waits,
            ),
        }
    }
}

/// The accesses from `before` to `after` are those of an `erase`, by a writer
/// in state `state`, that returned `result`.
pub open spec fn is_erase_run(
    before: Seq<Access>,
    after: Seq<Access>,
    state: WriterState,
    result: Result<(), FlashWriterError>,
) -> bool {
    exists|outcome: EraseOutcome|
        {
            &&& #[trigger] outcome.possible(state)
            &&& after == before + outcome.accesses(state)
            &&& result == outcome.result(state)
        }
}

/// The accesses of the program operations of the first chunks of the stream,
/// one for each wait of `waits`, from the cursor upwards.
pub open spec fn programs_accesses(
    state: WriterState,
    data: Seq<u8>,
    waits: Seq<WaitOutcome>,
) -> Seq<Access>
    decreases waits.len(),
{
    if waits.len() == 0 {
        Seq::empty()
    } else {
        programs_accesses(state, data, waits.drop_last()) + program_accesses(
            state.chunk_address(waits.len() - 1) as u32,
            chunk_of(state.chunk_bytes(data, waits.len() - 1)),
            waits.last(),
            state.geometry,
        )
    }
}

/// The number of chunks that the coalescer sets out to program: the whole
/// chunks of the stream, as far as the region has room for them.
pub open spec fn programs_planned(state: WriterState, data: Seq<u8>) -> nat {
    if state.full_chunks(data) <= state.room() {
        state.full_chunks(data)
    } else {
        state.room()
    }
}

/// Every wait of `waits` can end a wait, and each reported success.
pub open spec fn waits_succeeded(geometry: Geometry, waits: Seq<WaitOutcome>) -> bool {
    forall|i: int|
        0 <= i < waits.len() ==> {
            &&& (#[trigger] waits[i]).possible(geometry.max_polls)
            &&& waits[i].result(geometry.status) is Ok
        }
}

/// The coalescer can meet the waits `waits`, one for each program operation
/// that it got to: every operation but the last of them succeeded, and it
/// stopped short of the planned chunks only at a failed wait.
pub open spec fn programs_possible(
    state: WriterState,
    data: Seq<u8>,
    waits: Seq<WaitOutcome>,
) -> bool {
    &&& waits.len() <= programs_planned(state, data)
    &&& forall|i: int|
        0 <= i < waits.len() ==> (#[trigger] waits[i]).possible(state.geometry.max_polls)
    &&& forall|i: int|
        0 <= i < waits.len() - 1 ==> (#[trigger] waits[i]).result(state.geometry.status) is Ok
    &&& waits.len() < programs_planned(state, data) ==> programs_failed(state, waits)
}

/// The coalescer got to a program operation, and the last one failed.
pub open spec fn programs_failed(state: WriterState, waits: Seq<WaitOutcome>) -> bool {
    waits.len() > 0 && waits.last().result(state.geometry.status) is Err
}

/// The number of chunks that the coalescer programmed with success.
pub open spec fn programs_committed(state: WriterState, waits: Seq<WaitOutcome>) -> nat {
    if programs_failed(state, waits) {
        (waits.len() - 1) as nat
    } else {
        waits.len()
    }
}

/// What the coalescer returns: the error of the program operation that
/// failed; else `OutOfFlashWriterMemory` if the region has no room for a
/// whole chunk of the stream; else success.
pub open spec fn programs_result(
    state: WriterState,
    data: Seq<u8>,
    waits: Seq<WaitOutcome>,
) -> Result<(), FlashWriterError> {
    if programs_failed(state, waits) {
        waits.last().result(state.geometry.status)
    } else if state.full_chunks(data) > state.room() {
        Err(FlashWriterError::OutOfFlashWriterMemory)
    } else {
        Ok(())
    }
}

/// The state that the coalescer leaves. The cursor has advanced by one chunk
/// for each program operation that succeeded. After success the pending
/// bytes are the leftover of the stream. After a failure they are what they
/// were if no chunk was programmed, and none if one was.
pub open spec fn programs_state(
    state: WriterState,
    data: Seq<u8>,
    waits: Seq<WaitOutcome>,
) -> WriterState {
    WriterState {
        pending: if programs_result(state, data, waits) is Ok {
            state.leftover(data)
        } else if programs_committed(state, waits) == 0 {
            state.pending
        } else {
            Seq::empty()
        },
        ..state.advanced(programs_committed(state, waits))
    }
}

/// The coalescer took `data` in state `state`, with the accesses `before`,
/// left state `next`, with the accesses `after`, and returned `result`.
pub open spec fn is_coalesce(
    state: WriterState,
    before: Seq<Access>,
    data: Seq<u8>,
    next: WriterState,
    after: Seq<Access>,
    result: Result<(), FlashWriterError>,
) -> bool {
    exists|waits: Seq<WaitOutcome>|
        {
            &&& #[trigger] programs_possible(state, data, waits)
            &&& after == before + programs_accesses(state, data, waits)
            &&& result == programs_result(state, data, waits)
            &&& next == programs_state(state, data, waits)
        }
}

/// The coalescer, in state `state` at first, has programmed one chunk of the
/// stream for each wait of `waits`, has taken `taken` bytes of `data` for
/// them, and is in state `current`.
pub open spec fn coalescing(
    state: WriterState,
    data: Seq<u8>,
    waits: Seq<WaitOutcome>,
    taken: int,
    current: WriterState,
) -> bool {
    &&& state.valid()
    &&& waits.len() <= programs_planned(state, data)
    &&& waits_succeeded(state.geometry, waits)
    &&& 0 <= taken <= data.len()
    &&& taken + state.pending.len() == waits.len() * state.geometry.chunk_width
        + current.pending.len()
    &&& current == (WriterState {
        pending: if waits.len() == 0 {
            state.pending
        } else {
            Seq::empty()
        },
        ..state.advanced(waits.len())
    })
}

/// The coalescer starts with nothing programmed and nothing taken.
pub proof fn lemma_coalescing_start(state: WriterState, data: Seq<u8>)
    requires
        state.valid(),
    ensures
        coalescing(state, data, Seq::empty(), 0, state),
        programs_accesses(state, data, Seq::empty()) == Seq::<Access>::empty(),
{
    lemma_advanced(state, 0);
    assert(0 * state.geometry.chunk_width == 0) by (nonlinear_arith);
}

/// What holds while the coalescer is under way. Its state is valid, with the
/// cursor at the next chunk of the stream. The bytes that still miss for a
/// chunk are left in `data` exactly if the stream holds another whole chunk;
/// if so, the chunk is made of the pending bytes and of as many bytes of
/// `data`; if not, the leftover of the stream is the pending bytes and the
/// rest of `data`.
pub proof fn lemma_coalescing_next(
    state: WriterState,
    data: Seq<u8>,
    waits: Seq<WaitOutcome>,
    taken: int,
    current: WriterState,
)
    requires
        coalescing(state, data, waits, taken, current),
    ensures
        current.valid(),
        current.room() == state.room() - waits.len(),
        current.next_write_address == state.chunk_address(waits.len() as int),
        current.geometry == state.geometry,
        data.len() - taken >= state.geometry.chunk_width - current.pending.len() <==> waits.len()
            < state.full_chunks(data),
        waits.len() < state.full_chunks(data) ==> state.chunk_bytes(data, waits.len() as int)
            == current.pending + data.subrange(
            taken,
            taken + state.geometry.chunk_width - current.pending.len(),
        ),
        waits.len() >= state.full_chunks(data) ==> waits.len() == state.full_chunks(data)
            && state.leftover(data) == current.pending + data.skip(taken),
{
    let width = state.geometry.chunk_width as int;
    let count = waits.len() as int;
    let length = state.stream(data).len() as int;
    lemma_advanced(state, waits.len());
    lemma_strides_fit(length, width, count);
    lemma_strides_fit(length, width, count + 1);
    if count < state.full_chunks(data) {
        assert(state.chunk_bytes(data, count) =~= current.pending + data.subrange(
            taken,
            taken + width - current.pending.len(),
        ));
    } else {
        assert(state.leftover(data) =~= current.pending + data.skip(taken));
    }
}

/// One more chunk programmed with success takes the coalescer one chunk
/// further.
pub proof fn lemma_coalescing_step(
    state: WriterState,
    data: Seq<u8>,
    waits: Seq<WaitOutcome>,
    taken: int,
    current: WriterState,
    wait: WaitOutcome,
)
    requires
        coalescing(state, data, waits, taken, current),
        waits.len() < programs_planned(state, data),
        wait.possible(state.geometry.max_polls),
        wait.result(state.geometry.status) is Ok,
    ensures
        coalescing(
            state,
            data,
            waits.push(wait),
            taken + state.geometry.chunk_width - current.pending.len(),
            WriterState { pending: Seq::empty(), ..current.advanced(1) },
        ),
{
    let width = state.geometry.chunk_width as int;
    let count = waits.len() as int;
    lemma_coalescing_next(state, data, waits, taken, current);
    lemma_advanced(state, waits.len());
    lemma_advanced(state, (waits.len() + 1) as nat);
    lemma_strides_fit(state.stream(data).len() as int, width, count);
    assert((count + 1) * width == count * width + width) by (nonlinear_arith);
    assert(waits.push(wait).len() == count + 1);
}

/// The accesses of the program operations grow by those of the operation of
/// one more wait.
pub proof fn lemma_programs_accesses_push(
    state: WriterState,
    data: Seq<u8>,
    waits: Seq<WaitOutcome>,
    wait: WaitOutcome,
)
    ensures
        programs_accesses(state, data, waits.push(wait)) == programs_accesses(state, data, waits)
            + program_accesses(
            state.chunk_address(waits.len() as int) as u32,
            chunk_of(state.chunk_bytes(data, waits.len() as int)),
            wait,
            state.geometry,
        ),
{
    assert(waits.push(wait).drop_last() =~= waits);
}

/// The coalescer stops where it is, with `result`: its waits so far, and the
/// wait that failed if one did, account for the run.
pub proof fn lemma_coalescing_end(
    state: WriterState,
    data: Seq<u8>,
    waits: Seq<WaitOutcome>,
    taken: int,
    current: WriterState,
)
    requires
        coalescing(state, data, waits, taken, current),
    ensures
        waits.len() == state.full_chunks(data) ==> {
            &&& programs_possible(state, data, waits)
            &&& programs_result(state, data, waits) == Ok::<(), FlashWriterError>(())
            &&& programs_state(state, data, waits) == (WriterState {
                pending: current.pending + data.skip(taken),
                ..current
            })
        },
        waits.len() < state.full_chunks(data) && waits.len() == state.room() ==> {
            &&& programs_possible(state, data, waits)
            &&& programs_result(state, data, waits) == Err::<(), FlashWriterError>(
                FlashWriterError::OutOfFlashWriterMemory,
            )
            &&& programs_state(state, data, waits) == current
        },
        forall|wait: WaitOutcome|
            waits.len() < programs_planned(state, data) && #[trigger] wait.possible(
                state.geometry.max_polls,
            ) && wait.result(state.geometry.status) is Err ==> {
                &&& programs_possible(state, data, waits.push(wait))
                &&& programs_result(state, data, waits.push(wait)) == wait.result(
                    state.geometry.status,
                )
                &&& programs_state(state, data, waits.push(wait)) == current
            },
{
    lemma_coalescing_next(state, data, waits, taken, current);
    assert forall|wait: WaitOutcome|
        waits.len() < programs_planned(state, data) && #[trigger] wait.possible(
            state.geometry.max_polls,
        ) && wait.result(state.geometry.status) is Err implies {
        &&& programs_possible(state, data, waits.push(wait))
        &&& programs_result(state, data, waits.push(wait)) == wait.result(state.geometry.status)
        &&& programs_state(state, data, waits.push(wait)) == current
    } by {
        assert(waits.push(wait).drop_last() =~= waits);
    }
}

/// What the controller answered during `write`.
pub struct WriteOutcome {
    /// The unlock that comes first.
    pub unlock: UnlockOutcome,
    /// The waits of the program operations that the write got to, in order.
    pub waits: Seq<WaitOutcome>,
}

impl WriteOutcome {
    /// The state in which the coalescer starts: the image has grown by the
    /// length of `data`.
    pub open spec fn grown(state: WriterState, data: Seq<u8>) -> WriterState {
        WriterState { image_len: state.image_len + data.len(), ..state }
    }

    /// A `write` of `data` by a writer in state `state` can end this way.
    pub open spec fn possible(self, state: WriterState, data: Seq<u8>) -> bool {
        &&& self.unlock.possible(state.geometry)
        &&& self.unlock.result(state.geometry) is Ok ==> programs_possible(
            state,
            data,
            self.waits,
        )
    }

    /// The accesses of the `write`: the unlock and, if it succeeded, the
    /// program operations.
    pub open spec fn accesses(self, state: WriterState, data: Seq<u8>) -> Seq<Access> {
        if self.unlock.result(state.geometry) is Ok {
            self.unlock.accesses(state.geometry) + programs_accesses(state, data, self.waits)
        } else {
            self.unlock.accesses(state.geometry)
        }
    }

    /// What the `write` returns: the unlock's error, else what the coalescer
    /// returns.
    pub open spec fn result(self, state: WriterState, data: Seq<u8>) -> Result<
        (),
        FlashWriterError,
    > {
        if self.unlock.result(state.geometry) is Err {
            self.unlock.result(state.geometry)
        } else {
            programs_result(state, data, self.waits)
        }
    }

    /// The state that the `write` leaves: the image has grown by the length
    /// of `data`, and the cursor and the pending bytes are as the coalescer
    /// left them, if the unlock let it start.
    pub open spec fn state(self, state: WriterState, data: Seq<u8>) -> WriterState {
        if self.unlock.result(state.geometry) is Err {
            Self::grown(state, data)
        } else {
            Self::grown(programs_state(state, data, self.waits), data)
        }
    }
}

/// A `write` of `data` took a writer from state `state`, with the accesses
/// `before`, to state `next`, with the accesses `after`, and returned
/// `result`.
pub open spec fn is_write_run(
    state: WriterState,
    before: Seq<Access>,
    data: Seq<u8>,
    next: WriterState,
    after: Seq<Access>,
    result: Result<(), FlashWriterError>,
) -> bool {
    exists|outcome: WriteOutcome|
        {
            &&& #[trigger] outcome.possible(state, data)
            &&& after == before + outcome.accesses(state, data)
            &&& result == outcome.result(state, data)
            &&& next == outcome.state(state, data)
        }
}

/// What the controller answered during `flush`: the wait of its program
/// operation, if it makes one.
pub struct FlushOutcome {
    pub wait: WaitOutcome,
}

impl FlushOutcome {
    /// The flush makes a program operation: there are pending bytes, and the
    /// region has room for a chunk.
    pub open spec fn programs(state: WriterState) -> bool {
        state.pending.len() > 0 && state.room() > 0
    }

    /// The chunk that the flush programs: the pending bytes, padded with
    /// idle bytes at the high end.
    pub open spec fn chunk(state: WriterState) -> u64 {
        chunk_of(padded(state.pending, state.geometry.chunk_width))
    }

    /// A `flush` of a writer in state `state` can end this way.
    pub open spec fn possible(self, state: WriterState) -> bool {
        Self::programs(state) ==> self.wait.possible(state.geometry.max_polls)
    }

    /// The accesses of the `flush`: the program operation, if it makes one,
    /// and the lock.
    pub open spec fn accesses(self, state: WriterState) -> Seq<Access> {
        let program = if Self::programs(state) {
            program_accesses(
                state.next_write_address,
                Self::chunk(state),
                self.wait,
                state.geometry,
            )
        } else {
            Seq::empty()
        };
        program + seq![Access::Lock]
    }

    /// What the `flush` returns: success if nothing is pending; else
    /// `OutOfFlashWriterMemory` if the region has no room for a chunk; else
    /// what the program operation returns.
    pub open spec fn result(self, state: WriterState) -> Result<(), FlashWriterError> {
        if state.pending.len() == 0 {
            Ok(())
        } else if state.room() == 0 {
            Err(FlashWriterError::OutOfFlashWriterMemory)
        } else {
            self.wait.result(state.geometry.status)
        }
    }

    /// The state that the `flush` leaves: if it programmed the chunk with
    /// success, the cursor is one chunk further and nothing is pending; else
    /// the state is as it was.
    pub open spec fn state(self, state: WriterState) -> WriterState {
        if Self::programs(state) && self.wait.result(state.geometry.status) is Ok {
            WriterState {
                next_write_address: state.chunk_address(1) as u32,
                pending: Seq::empty(),
                ..state
            }
        } else {
            state
        }
    }
}

/// A `flush` took a writer from state `state`, with the accesses `before`,
/// to state `next`, with the accesses `after`, and returned `result`.
pub open spec fn is_flush_run(
    state: WriterState,
    before: Seq<Access>,
    next: WriterState,
    after: Seq<Access>,
    result: Result<(), FlashWriterError>,
) -> bool {
    exists|outcome: FlushOutcome|
        {
            &&& #[trigger] outcome.possible(state)
            &&& after == before + outcome.accesses(state)
            &&& result == outcome.result(state)
            &&& next == outcome.state(state)
        }
}

} // verus!
