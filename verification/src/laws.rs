//! What holds of every run of the engine, whatever the controller answers.

use vstd::prelude::*;
use crate::busy::{busy_reads, is_wait, WaitOutcome};
use crate::erase::{
    erase_possible, erase_result, is_erase, lemma_page_count_step, page_address, page_count,
    pages_accesses,
};
use crate::error::FlashWriterError;
use crate::layout::{find_bank, Geometry};
use crate::model::{
    is_erase_run, is_flush_run, is_unlock, is_write_run, lemma_advanced, programs_accesses,
    EraseOutcome, FlushOutcome, UnlockOutcome, WriteOutcome, WriterState,
};
use crate::program::{chunk_of, program_accesses};
use crate::registers::Access;
use crate::status::{lemma_decode_status_kinds, StatusBits};
use crate::stride::{lemma_strides_fit, lemma_strides_left};

verus! {

/// The access changes the flash array or a mode of the controller that
/// erasing and programming go by.
pub open spec fn is_command(access: Access) -> bool {
    access is PageErase || access is BankSelect || access is PageSelect || access is EraseStart
        || access is ProgramEnable || access is Program
}

/// None of the accesses is a command.
pub open spec fn no_commands(accesses: Seq<Access>) -> bool {
    forall|i: int| 0 <= i < accesses.len() ==> !is_command(#[trigger] accesses[i])
}

/// A wait returns an error of the status decoder or `BsyTimeout`, and makes
/// no command.
pub proof fn lemma_wait_outcome(wait: WaitOutcome, max_polls: nat, map: StatusBits)
    ensures
        no_commands(wait.accesses(max_polls)),
        wait.result(map) matches Err(e) ==> e.is_status_error() || e
            == FlashWriterError::BsyTimeout,
        wait.result(map) == Err::<(), FlashWriterError>(FlashWriterError::BsyTimeout)
            <==> wait is TimedOut,
{
    if let WaitOutcome::Ready { status, .. } = wait {
        lemma_decode_status_kinds(status, map);
    }
}

/// A wait returns `BsyTimeout` exactly if it polled the busy flag as often
/// as its budget allows, no more and no less, and read it set each time.
pub proof fn lemma_wait_timeout(
    before: Seq<Access>,
    after: Seq<Access>,
    max_polls: nat,
    map: StatusBits,
    result: Result<(), FlashWriterError>,
)
    requires
        is_wait(before, after, max_polls, map, result),
    ensures
        result == Err::<(), FlashWriterError>(FlashWriterError::BsyTimeout) <==> after == before
            + busy_reads(max_polls),
        result != Err::<(), FlashWriterError>(FlashWriterError::BsyTimeout) ==> before.len() + 2
            <= after.len() <= before.len() + max_polls + 1,
{
    let wait = choose|wait: WaitOutcome|
        {
            &&& #[trigger] wait.possible(max_polls)
            &&& after == before + wait.accesses(max_polls)
            &&& result == wait.result(map)
        };
    lemma_wait_outcome(wait, max_polls, map);
    if let WaitOutcome::Ready { busy_polls, status } = wait {
        let made = wait.accesses(max_polls);
        assert(made.len() == busy_polls + 2);
        let polled = before + busy_reads(max_polls);
        if after == polled {
            let last = before.len() + made.len() - 1;
            assert((before + made).len() == before.len() + made.len());
            assert(polled.len() == before.len() + max_polls);
            assert((before + made)[last] == made[made.len() - 1]);
            assert(polled[last] == busy_reads(max_polls)[made.len() - 1]);
        }
    }
}

/// An unlock makes no command, and returns `FlashLocked` exactly if the wait
/// succeeded and the lock bit read set at the end.
pub proof fn lemma_unlock_outcome(unlock: UnlockOutcome, geometry: Geometry)
    ensures
        no_commands(unlock.accesses(geometry)),
        unlock.result(geometry) == Err::<(), FlashWriterError>(FlashWriterError::FlashLocked)
            <==> unlock.wait.result(geometry.status) is Ok && unlock.locked_after,
{
    lemma_wait_outcome(unlock.wait, geometry.max_polls, geometry.status);
}

/// An unlock that returns `FlashLocked` has read the lock bit set last, and
/// has made no command.
pub proof fn lemma_unlock_locked(
    before: Seq<Access>,
    after: Seq<Access>,
    geometry: Geometry,
    result: Result<(), FlashWriterError>,
)
    requires
        is_unlock(before, after, geometry, result),
    ensures
        no_commands(after.skip(before.len() as int)),
        result == Err::<(), FlashWriterError>(FlashWriterError::FlashLocked) ==> after.len()
            > before.len() && after.last() == (Access::LockRead { locked: true }),
{
    let unlock = choose|unlock: UnlockOutcome|
        {
            &&& #[trigger] unlock.possible(geometry)
            &&& after == before + unlock.accesses(geometry)
            &&& result == unlock.result(geometry)
        };
    lemma_unlock_outcome(unlock, geometry);
    assert(after.skip(before.len() as int) =~= unlock.accesses(geometry));
}

/// The erase of the pages never returns `FlashLocked`.
pub proof fn lemma_erase_result_kinds(
    geometry: Geometry,
    start: u32,
    end: u32,
    waits: Seq<WaitOutcome>,
)
    ensures
        erase_result(geometry, start, end, waits) matches Err(e) ==> e.is_status_error() || e
            == FlashWriterError::BsyTimeout || e == FlashWriterError::WrongBankId,
{
    if waits.len() > 0 {
        lemma_wait_outcome(waits.last(), geometry.max_polls, geometry.status);
    }
}

/// An `erase` that returns `FlashLocked` has made no command: it has only
/// waited, read the lock bit, written the keys, and set the lock bit.
pub proof fn lemma_erase_locked(
    before: Seq<Access>,
    after: Seq<Access>,
    state: WriterState,
    result: Result<(), FlashWriterError>,
)
    requires
        is_erase_run(before, after, state, result),
        result == Err::<(), FlashWriterError>(FlashWriterError::FlashLocked),
    ensures
        no_commands(after.skip(before.len() as int)),
        after.last() == Access::Lock,
{
    let outcome = choose|outcome: EraseOutcome|
        {
            &&& #[trigger] outcome.possible(state)
            &&& after == before + outcome.accesses(state)
            &&& result == outcome.result(state)
        };
    lemma_unlock_outcome(outcome.unlock, state.geometry);
    lemma_erase_result_kinds(state.geometry, state.start_address, state.end_address, outcome.waits);
    assert(after.skip(before.len() as int) =~= outcome.accesses(state));
}

/// A `flush` after a `flush` that succeeded only sets the lock bit: it
/// succeeds, makes no other access, and leaves the writer's state as it is.
pub proof fn lemma_flush_twice(
    state: WriterState,
    before: Seq<Access>,
    flushed: WriterState,
    between: Seq<Access>,
    again: WriterState,
    after: Seq<Access>,
    result: Result<(), FlashWriterError>,
)
    requires
        is_flush_run(state, before, flushed, between, Ok(())),
        is_flush_run(flushed, between, again, after, result),
    ensures
        result == Ok::<(), FlashWriterError>(()),
        again == flushed,
        after == between.push(Access::Lock),
{
    let first = choose|first: FlushOutcome|
        {
            &&& #[trigger] first.possible(state)
            &&& between == before + first.accesses(state)
            &&& Ok::<(), FlashWriterError>(()) == first.result(state)
            &&& flushed == first.state(state)
        };
    let second = choose|second: FlushOutcome|
        {
            &&& #[trigger] second.possible(flushed)
            &&& after == between + second.accesses(flushed)
            &&& result == second.result(flushed)
            &&& again == second.state(flushed)
        };
    assert(flushed.pending.len() == 0);
    assert(after =~= between.push(Access::Lock));
}

/// Every program access among `accesses` writes a whole chunk between `low`
/// and `high`.
pub open spec fn programs_within(accesses: Seq<Access>, low: int, high: int, width: nat) -> bool {
    forall|i: int|
        0 <= i < accesses.len() ==> ((#[trigger] accesses[i]) matches Access::Program {
            address,
            ..
        } ==> low <= address && address + width <= high)
}

/// The program operations of the coalescer write only between the cursor
/// and the end of the region.
pub proof fn lemma_programs_within(state: WriterState, data: Seq<u8>, waits: Seq<WaitOutcome>)
    requires
        state.valid(),
        waits.len() <= state.room(),
    ensures
        programs_within(
            programs_accesses(state, data, waits),
            state.next_write_address as int,
            state.end_address as int,
            state.geometry.chunk_width,
        ),
        no_commands(programs_accesses(state, data, waits)) <==> waits.len() == 0,
    decreases waits.len(),
{
    if waits.len() > 0 {
        let earlier = waits.drop_last();
        let index = waits.len() - 1;
        lemma_programs_within(state, data, earlier);
        lemma_advanced(state, index as nat);
        lemma_wait_outcome(waits.last(), state.geometry.max_polls, state.geometry.status);
        let made = program_accesses(
            state.chunk_address(index) as u32,
            chunk_of(state.chunk_bytes(data, index)),
            waits.last(),
            state.geometry,
        );
        let all = programs_accesses(state, data, waits);
        let head = programs_accesses(state, data, earlier);
        assert(all == head + made);
        assert(is_command(made[0]));
        assert(all[head.len() as int] == made[0]);
        assert forall|i: int| 0 <= i < all.len() implies ((#[trigger] all[i]) matches Access::Program {
            address,
            ..
        } ==> state.next_write_address <= address && address + state.geometry.chunk_width
            <= state.end_address) by {
            if i < head.len() {
                assert(all[i] == head[i]);
            } else {
                let k = i - head.len();
                assert(all[i] == made[k]);
                if k >= 2 {
                    let polls = waits.last().accesses(state.geometry.max_polls);
                    if k < 2 + polls.len() {
                        assert(made[k] == polls[k - 2]);
                    }
                }
            }
        }
    }
}

/// A `write` programs only between the cursor and the end of the region,
/// whatever it returns: no chunk reaches past `end_address`. It returns
/// `OutOfFlashWriterMemory` only if the stream holds more whole chunks than
/// the region has room for, and `FlashLocked` only without a command.
pub proof fn lemma_write_within_region(
    state: WriterState,
    before: Seq<Access>,
    data: Seq<u8>,
    next: WriterState,
    after: Seq<Access>,
    result: Result<(), FlashWriterError>,
)
    requires
        state.valid(),
        is_write_run(state, before, data, next, after, result),
    ensures
        programs_within(
            after.skip(before.len() as int),
            state.next_write_address as int,
            state.end_address as int,
            state.geometry.chunk_width,
        ),
        result == Err::<(), FlashWriterError>(FlashWriterError::OutOfFlashWriterMemory)
            ==> state.full_chunks(data) > state.room(),
        result == Err::<(), FlashWriterError>(FlashWriterError::FlashLocked) ==> no_commands(
            after.skip(before.len() as int),
        ) && next == WriteOutcome::grown(state, data),
{
    let outcome = choose|outcome: WriteOutcome|
        {
            &&& #[trigger] outcome.possible(state, data)
            &&& after == before + outcome.accesses(state, data)
            &&& result == outcome.result(state, data)
            &&& next == outcome.state(state, data)
        };
    let made = outcome.accesses(state, data);
    assert(after.skip(before.len() as int) =~= made);
    let unlocking = outcome.unlock.accesses(state.geometry);
    lemma_unlock_outcome(outcome.unlock, state.geometry);
    if outcome.unlock.result(state.geometry) is Ok {
        let programs = programs_accesses(state, data, outcome.waits);
        lemma_programs_within(state, data, outcome.waits);
        if outcome.waits.len() > 0 {
            lemma_wait_outcome(
                outcome.waits.last(),
                state.geometry.max_polls,
                state.geometry.status,
            );
        }
        assert forall|i: int| 0 <= i < made.len() implies ((#[trigger] made[i]) matches Access::Program {
            address,
            ..
        } ==> state.next_write_address <= address && address + state.geometry.chunk_width
            <= state.end_address) by {
            if i < unlocking.len() {
                assert(made[i] == unlocking[i]);
            } else {
                assert(made[i] == programs[i - unlocking.len()]);
            }
        }
    }
}

/// A `flush` programs at most one chunk, at the cursor, and only where the
/// region has room for it.
pub proof fn lemma_flush_within_region(
    state: WriterState,
    before: Seq<Access>,
    next: WriterState,
    after: Seq<Access>,
    result: Result<(), FlashWriterError>,
)
    requires
        state.valid(),
        is_flush_run(state, before, next, after, result),
    ensures
        programs_within(
            after.skip(before.len() as int),
            state.next_write_address as int,
            state.end_address as int,
            state.geometry.chunk_width,
        ),
        after.last() == Access::Lock,
        result == Err::<(), FlashWriterError>(FlashWriterError::OutOfFlashWriterMemory)
            <==> state.pending.len() > 0 && state.room() == 0,
{
    let outcome = choose|outcome: FlushOutcome|
        {
            &&& #[trigger] outcome.possible(state)
            &&& after == before + outcome.accesses(state)
            &&& result == outcome.result(state)
            &&& next == outcome.state(state)
        };
    let made = outcome.accesses(state);
    assert(after.skip(before.len() as int) =~= made);
    lemma_advanced(state, 0);
    lemma_wait_outcome(outcome.wait, state.geometry.max_polls, state.geometry.status);
    if FlushOutcome::programs(state) {
        let polls = outcome.wait.accesses(state.geometry.max_polls);
        assert forall|i: int| 0 <= i < made.len() implies ((#[trigger] made[i]) matches Access::Program {
            address,
            ..
        } ==> state.next_write_address <= address && address + state.geometry.chunk_width
            <= state.end_address) by {
            if 2 <= i < 2 + polls.len() {
                assert(made[i] == polls[i - 2]);
            }
        }
    }
}

/// The chunks that `accesses` programmed, each with its address, in order.
pub open spec fn programmed(accesses: Seq<Access>) -> Seq<(u32, u64)>
    decreases accesses.len(),
{
    if accesses.len() == 0 {
        Seq::empty()
    } else {
        let earlier = programmed(accesses.drop_last());
        match accesses.last() {
            Access::Program { address, chunk } => earlier.push((address, chunk)),
            _ => earlier,
        }
    }
}

/// What two runs of accesses programmed is what the first programmed, then
/// what the second programmed.
pub proof fn lemma_programmed_concat(first: Seq<Access>, second: Seq<Access>)
    ensures
        programmed(first + second) == programmed(first) + programmed(second),
    decreases second.len(),
{
    if second.len() == 0 {
        assert(first + second =~= first);
        assert(programmed(first) + programmed(second) =~= programmed(first));
    } else {
        lemma_programmed_concat(first, second.drop_last());
        assert((first + second).drop_last() =~= first + second.drop_last());
        assert((first + second).last() == second.last());
        assert(programmed(first + second) =~= programmed(first) + programmed(second));
    }
}

/// Accesses without a program access programmed nothing.
pub proof fn lemma_programmed_none(accesses: Seq<Access>)
    requires
        forall|i: int| 0 <= i < accesses.len() ==> !((#[trigger] accesses[i]) is Program),
    ensures
        programmed(accesses) == Seq::<(u32, u64)>::empty(),
    decreases accesses.len(),
{
    if accesses.len() > 0 {
        let earlier = accesses.drop_last();
        assert forall|i: int| 0 <= i < earlier.len() implies !((#[trigger] earlier[i]) is Program) by {
            assert(earlier[i] == accesses[i]);
        }
        lemma_programmed_none(earlier);
        assert(!(accesses[accesses.len() - 1] is Program));
    }
}

/// One program operation programmed its chunk at its address, and nothing
/// else.
pub proof fn lemma_programmed_one(address: u32, chunk: u64, wait: WaitOutcome, geometry: Geometry)
    ensures
        programmed(program_accesses(address, chunk, wait, geometry)) == seq![(address, chunk)],
{
    let issue = seq![Access::ProgramEnable { enable: true }, Access::Program { address, chunk }];
    let polls = wait.accesses(geometry.max_polls);
    let close = if wait.result(geometry.status) is Ok {
        seq![Access::ProgramEnable { enable: false }]
    } else {
        Seq::empty()
    };
    assert(program_accesses(address, chunk, wait, geometry) =~= issue + (polls + close));
    lemma_programmed_concat(issue, polls + close);
    lemma_programmed_none(polls + close);
    assert(issue.drop_last() =~= seq![Access::ProgramEnable { enable: true }]);
    assert(issue.drop_last().drop_last() =~= Seq::<Access>::empty());
    reveal_with_fuel(programmed, 3);
    assert(programmed(issue) =~= seq![(address, chunk)]);
}

/// The chunks that a `write` of `data` programs if nothing fails: the whole
/// chunks of the stream, in order, from the cursor upwards.
pub open spec fn committed(state: WriterState, data: Seq<u8>) -> Seq<(u32, u64)> {
    Seq::new(
        state.full_chunks(data),
        |index: int| (state.chunk_address(index) as u32, chunk_of(state.chunk_bytes(data, index))),
    )
}

/// The state that a `write` of `data` leaves if nothing fails.
pub open spec fn written(state: WriterState, data: Seq<u8>) -> WriterState {
    WriterState {
        pending: state.leftover(data),
        image_len: state.image_len + data.len(),
        ..state.advanced(state.full_chunks(data))
    }
}

/// What the first program operations of the coalescer programmed is the
/// first of the chunks of the stream.
pub proof fn lemma_programs_programmed(state: WriterState, data: Seq<u8>, waits: Seq<WaitOutcome>)
    requires
        waits.len() <= state.full_chunks(data),
    ensures
        programmed(programs_accesses(state, data, waits)) == committed(state, data).take(
            waits.len() as int,
        ),
    decreases waits.len(),
{
    if waits.len() == 0 {
        assert(committed(state, data).take(0) =~= Seq::<(u32, u64)>::empty());
    } else {
        let earlier = waits.drop_last();
        let index = waits.len() - 1;
        let address = state.chunk_address(index) as u32;
        let chunk = chunk_of(state.chunk_bytes(data, index));
        lemma_programs_programmed(state, data, earlier);
        lemma_programmed_concat(
            programs_accesses(state, data, earlier),
            program_accesses(address, chunk, waits.last(), state.geometry),
        );
        lemma_programmed_one(address, chunk, waits.last(), state.geometry);
        assert(committed(state, data).take(waits.len() as int) =~= committed(state, data).take(
            index,
        ).push((address, chunk)));
    }
}

/// A `write` that succeeds has programmed every whole chunk of the stream,
/// in order, and nothing else; it leaves the leftover of the stream pending
/// and the cursor behind the last chunk.
pub proof fn lemma_write_success(
    state: WriterState,
    before: Seq<Access>,
    data: Seq<u8>,
    next: WriterState,
    after: Seq<Access>,
)
    requires
        state.valid(),
        is_write_run(state, before, data, next, after, Ok(())),
    ensures
        state.full_chunks(data) <= state.room(),
        next == written(state, data),
        next.valid(),
        programmed(after) == programmed(before) + committed(state, data),
{
    let outcome = choose|outcome: WriteOutcome|
        {
            &&& #[trigger] outcome.possible(state, data)
            &&& after == before + outcome.accesses(state, data)
            &&& Ok::<(), FlashWriterError>(()) == outcome.result(state, data)
            &&& next == outcome.state(state, data)
        };
    let waits = outcome.waits;
    let unlocking = outcome.unlock.accesses(state.geometry);
    let programs = programs_accesses(state, data, waits);
    lemma_unlock_outcome(outcome.unlock, state.geometry);
    assert(waits.len() == state.full_chunks(data));
    lemma_programs_programmed(state, data, waits);
    assert(committed(state, data).take(waits.len() as int) =~= committed(state, data));
    lemma_programmed_concat(before, unlocking + programs);
    lemma_programmed_concat(unlocking, programs);
    lemma_programmed_none(unlocking);
    assert(before + (unlocking + programs) =~= after);
    assert(programmed(after) =~= programmed(before) + committed(state, data));
    lemma_written_valid(state, data);
}

/// If the region has room for the whole chunks of the stream, the state
/// that a successful `write` leaves is valid.
pub proof fn lemma_written_valid(state: WriterState, data: Seq<u8>)
    requires
        state.valid(),
        state.full_chunks(data) <= state.room(),
    ensures
        written(state, data).valid(),
        written(state, data).pending.len() == state.stream(data).len() - state.full_chunks(data)
            * state.geometry.chunk_width,
{
    let width = state.geometry.chunk_width as int;
    let length = state.stream(data).len() as int;
    lemma_advanced(state, state.full_chunks(data));
    vstd::arithmetic::div_mod::lemma_fundamental_div_mod(length, width);
    vstd::arithmetic::div_mod::lemma_mod_bound(length, width);
    assert(width * (length / width) == (length / width) * width) by (nonlinear_arith);
}

/// Coalescing is split-invariant: a stream handed over in two parts is cut
/// into the same chunks, at the same addresses, as the stream handed over
/// whole, and leaves the same state.
pub proof fn lemma_committed_split(state: WriterState, first: Seq<u8>, second: Seq<u8>)
    requires
        state.valid(),
        state.full_chunks(first + second) <= state.room(),
    ensures
        state.full_chunks(first) <= state.room(),
        written(state, first).full_chunks(second) <= written(state, first).room(),
        committed(state, first + second) == committed(state, first) + committed(
            written(state, first),
            second,
        ),
        written(written(state, first), second) == written(state, first + second),
{
    let width = state.geometry.chunk_width as int;
    let whole = state.stream(first + second);
    let head = state.stream(first);
    let taken = state.full_chunks(first) as int;
    let middle = written(state, first);
    let tail = middle.stream(second);
    assert(whole =~= head + second);
    lemma_strides_fit(head.len() as int, width, taken);
    lemma_strides_fit(whole.len() as int, width, taken);
    lemma_written_valid(state, first);
    lemma_advanced(state, taken as nat);
    assert(tail =~= whole.skip(taken * width));
    lemma_strides_left(whole.len() as int, width, taken);
    let rest = middle.full_chunks(second) as int;
    assert(state.full_chunks(first + second) == taken + rest);
    assert((taken + rest) * width == taken * width + rest * width) by (nonlinear_arith);
    lemma_strides_fit(tail.len() as int, width, rest);
    lemma_strides_fit(whole.len() as int, width, taken + rest);
    assert(middle.leftover(second) =~= state.leftover(first + second));
    assert forall|index: int| 0 <= index < rest implies middle.chunk_bytes(second, index)
        == state.chunk_bytes(first + second, taken + index) && middle.chunk_address(index)
        == state.chunk_address(taken + index) by {
        assert((taken + index) * width == taken * width + index * width) by (nonlinear_arith);
        lemma_strides_fit(tail.len() as int, width, index);
        lemma_strides_fit(tail.len() as int, width, index + 1);
        assert(middle.chunk_bytes(second, index) =~= state.chunk_bytes(
            first + second,
            taken + index,
        ));
    }
    assert forall|index: int| 0 <= index < taken implies state.chunk_bytes(first, index)
        == state.chunk_bytes(first + second, index) by {
        lemma_strides_fit(head.len() as int, width, index);
        lemma_strides_fit(head.len() as int, width, index + 1);
        assert(state.chunk_bytes(first, index) =~= state.chunk_bytes(first + second, index));
    }
    assert(committed(state, first + second) =~= committed(state, first) + committed(
        middle,
        second,
    ));
    lemma_advanced(middle, rest as nat);
    lemma_advanced(state, (taken + rest) as nat);
    assert(written(middle, second) == written(state, first + second));
}

/// The chunk that a `flush` programs if nothing fails: none without
/// pending bytes, else the pending bytes padded with idle bytes, at the
/// cursor.
pub open spec fn flushed_chunk(state: WriterState) -> Seq<(u32, u64)> {
    if state.pending.len() == 0 {
        Seq::empty()
    } else {
        seq![(state.next_write_address, FlushOutcome::chunk(state))]
    }
}

/// The state that a `flush` leaves if nothing fails.
pub open spec fn flushed(state: WriterState) -> WriterState {
    if state.pending.len() == 0 {
        state
    } else {
        WriterState { pending: Seq::empty(), ..state.advanced(1) }
    }
}

/// An image: the chunks that a `write` of `data` and a `flush` program if
/// nothing fails. They are the bytes of the stream in order, padded at the
/// end with idle bytes up to a whole chunk.
pub open spec fn image(state: WriterState, data: Seq<u8>) -> Seq<(u32, u64)> {
    committed(state, data) + flushed_chunk(written(state, data))
}

/// A `flush` that succeeds has programmed the pending bytes as one padded
/// chunk at the cursor, if there were any, and nothing else.
pub proof fn lemma_flush_success(
    state: WriterState,
    before: Seq<Access>,
    next: WriterState,
    after: Seq<Access>,
)
    requires
        is_flush_run(state, before, next, after, Ok(())),
    ensures
        next == flushed(state),
        programmed(after) == programmed(before) + flushed_chunk(state),
{
    let outcome = choose|outcome: FlushOutcome|
        {
            &&& #[trigger] outcome.possible(state)
            &&& after == before + outcome.accesses(state)
            &&& Ok::<(), FlashWriterError>(()) == outcome.result(state)
            &&& next == outcome.state(state)
        };
    let made = outcome.accesses(state);
    let lock = seq![Access::Lock];
    lemma_programmed_concat(before, made);
    lemma_programmed_none(lock);
    if state.pending.len() == 0 {
        assert(made =~= lock);
        assert(programmed(before) + flushed_chunk(state) =~= programmed(before));
    } else {
        let program = program_accesses(
            state.next_write_address,
            FlushOutcome::chunk(state),
            outcome.wait,
            state.geometry,
        );
        assert(made == program + lock);
        lemma_programmed_concat(program, lock);
        lemma_programmed_one(
            state.next_write_address,
            FlushOutcome::chunk(state),
            outcome.wait,
            state.geometry,
        );
        assert(programmed(made) =~= flushed_chunk(state));
    }
}

/// Writing is split-invariant. If an image is written in two parts and
/// flushed, and nothing fails, and the same image is written whole and
/// flushed by a writer in the same state, and nothing fails, then both
/// sessions program the same chunks at the same addresses, and both leave
/// the same state.
pub proof fn lemma_write_split_invariant(
    state: WriterState,
    first: Seq<u8>,
    second: Seq<u8>,
    split_logs: (Seq<Access>, Seq<Access>, Seq<Access>, Seq<Access>),
    split_states: (WriterState, WriterState, WriterState),
    whole_logs: (Seq<Access>, Seq<Access>, Seq<Access>),
    whole_states: (WriterState, WriterState),
)
    requires
        state.valid(),
        is_write_run(state, split_logs.0, first, split_states.0, split_logs.1, Ok(())),
        is_write_run(split_states.0, split_logs.1, second, split_states.1, split_logs.2, Ok(())),
        is_flush_run(split_states.1, split_logs.2, split_states.2, split_logs.3, Ok(())),
        is_write_run(state, whole_logs.0, first + second, whole_states.0, whole_logs.1, Ok(())),
        is_flush_run(whole_states.0, whole_logs.1, whole_states.1, whole_logs.2, Ok(())),
    ensures
        split_states.2 == whole_states.1,
        programmed(split_logs.3) == programmed(split_logs.0) + image(state, first + second),
        programmed(whole_logs.2) == programmed(whole_logs.0) + image(state, first + second),
{
    lemma_write_success(state, whole_logs.0, first + second, whole_states.0, whole_logs.1);
    lemma_flush_success(whole_states.0, whole_logs.1, whole_states.1, whole_logs.2);
    lemma_committed_split(state, first, second);
    lemma_write_success(state, split_logs.0, first, split_states.0, split_logs.1);
    lemma_write_success(split_states.0, split_logs.1, second, split_states.1, split_logs.2);
    lemma_flush_success(split_states.1, split_logs.2, split_states.2, split_logs.3);
    assert(programmed(split_logs.3) =~= programmed(split_logs.0) + image(state, first + second));
    assert(programmed(whole_logs.2) =~= programmed(whole_logs.0) + image(state, first + second));
}

/// The erase of the pages succeeds only if it has erased every page of the
/// range: each got its erase command, in ascending order, and each wait
/// reported success.
pub proof fn lemma_erase_success(
    before: Seq<Access>,
    after: Seq<Access>,
    geometry: Geometry,
    start: u32,
    end: u32,
)
    requires
        is_erase(before, after, geometry, start, end, Ok(())),
    ensures
        exists|waits: Seq<WaitOutcome>|
            {
                &&& #[trigger] erase_possible(geometry, start, end, waits)
                &&& waits.len() == page_count(start, end, geometry.page_size)
                &&& forall|i: int|
                    0 <= i < waits.len() ==> (#[trigger] waits[i]).result(geometry.status) is Ok
                &&& after == before + pages_accesses(geometry, start, waits)
            },
{
    let waits = choose|waits: Seq<WaitOutcome>|
        {
            &&& #[trigger] erase_possible(geometry, start, end, waits)
            &&& after == before + pages_accesses(geometry, start, waits)
            &&& Ok::<(), FlashWriterError>(()) == erase_result(geometry, start, end, waits)
        };
    assert(waits.len() == page_count(start, end, geometry.page_size));
    assert forall|i: int| 0 <= i < waits.len() implies (#[trigger] waits[i]).result(
        geometry.status,
    ) is Ok by {
        if i == waits.len() - 1 {
            assert(waits[i] == waits.last());
        }
    }
}

/// An `erase` by a writer in a valid state never returns `WrongBankId`:
/// every page address of the writer's region lies in a bank. Its errors are
/// those of its waits and `FlashLocked`.
pub proof fn lemma_erase_errors(
    before: Seq<Access>,
    after: Seq<Access>,
    state: WriterState,
    result: Result<(), FlashWriterError>,
)
    requires
        state.valid(),
        is_erase_run(before, after, state, result),
    ensures
        result matches Err(e) ==> e.is_status_error() || e == FlashWriterError::BsyTimeout || e
            == FlashWriterError::FlashLocked,
        after.last() == Access::Lock,
{
    let outcome = choose|outcome: EraseOutcome|
        {
            &&& #[trigger] outcome.possible(state)
            &&& after == before + outcome.accesses(state)
            &&& result == outcome.result(state)
        };
    let geometry = state.geometry;
    let waits = outcome.waits;
    lemma_unlock_outcome(outcome.unlock, geometry);
    lemma_wait_outcome(outcome.unlock.wait, geometry.max_polls, geometry.status);
    if outcome.unlock.result(geometry) is Ok {
        lemma_erase_result_kinds(geometry, state.start_address, state.end_address, waits);
        if waits.len() < page_count(state.start_address, state.end_address, geometry.page_size) {
            lemma_page_count_step(
                state.start_address,
                state.end_address,
                geometry.page_size,
                waits.len(),
            );
            let address = page_address(state.start_address, geometry.page_size, waits.len() as int);
            assert(find_bank(geometry.banks, address as u32) is Some);
        }
    }
}

/// The errors of a `write` are those of its waits, `FlashLocked` and
/// `OutOfFlashWriterMemory`.
pub proof fn lemma_write_errors(
    state: WriterState,
    before: Seq<Access>,
    data: Seq<u8>,
    next: WriterState,
    after: Seq<Access>,
    result: Result<(), FlashWriterError>,
)
    requires
        is_write_run(state, before, data, next, after, result),
    ensures
        result matches Err(e) ==> e.is_status_error() || e == FlashWriterError::BsyTimeout || e
            == FlashWriterError::FlashLocked || e == FlashWriterError::OutOfFlashWriterMemory,
{
    let outcome = choose|outcome: WriteOutcome|
        {
            &&& #[trigger] outcome.possible(state, data)
            &&& after == before + outcome.accesses(state, data)
            &&& result == outcome.result(state, data)
            &&& next == outcome.state(state, data)
        };
    lemma_unlock_outcome(outcome.unlock, state.geometry);
    lemma_wait_outcome(outcome.unlock.wait, state.geometry.max_polls, state.geometry.status);
    if outcome.waits.len() > 0 {
        lemma_wait_outcome(outcome.waits.last(), state.geometry.max_polls, state.geometry.status);
    }
}

/// The errors of a `flush` are those of its wait and
/// `OutOfFlashWriterMemory`.
pub proof fn lemma_flush_errors(
    state: WriterState,
    before: Seq<Access>,
    next: WriterState,
    after: Seq<Access>,
    result: Result<(), FlashWriterError>,
)
    requires
        is_flush_run(state, before, next, after, result),
    ensures
        result matches Err(e) ==> e.is_status_error() || e == FlashWriterError::BsyTimeout || e
            == FlashWriterError::OutOfFlashWriterMemory,
{
    let outcome = choose|outcome: FlushOutcome|
        {
            &&& #[trigger] outcome.possible(state)
            &&& after == before + outcome.accesses(state)
            &&& result == outcome.result(state)
            &&& next == outcome.state(state)
        };
    lemma_wait_outcome(outcome.wait, state.geometry.max_polls, state.geometry.status);
}

} // verus!
