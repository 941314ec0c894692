//! Runs against a source that holds known bytes.
//!
//! The stream does not read the source's bytes, it only counts them. These
//! laws say what reaches the consumer when the source behaves as a store of
//! bytes does: after the seek it gives the bytes that follow the offset sought,
//! in order, at least one per read as long as any is left and any was asked
//! for.

use crate::laws::{
    admissible, admits, bytes_of, delivered, deliver, lemma_fill_into_empty, lemma_run_accounting,
    lemma_steps_before_last, lemma_steps_len, state_after, steps_of, Turn,
};
use crate::model::{read_limit, StepModel, StreamModel};
use vstd::prelude::*;

verus! {

/// Whether `fill` is what a source holding `data` may append when it is at
/// offset `position` and is asked for at most `max_len` bytes: the bytes that
/// follow `position`, at least one of them and no more than asked for, or
/// nothing where nothing is left or nothing was asked for.
pub open spec fn source_gives(data: Seq<u8>, position: int, max_len: nat, fill: Seq<u8>) -> bool {
    if position < data.len() && max_len > 0 {
        &&& 0 < fill.len() <= max_len
        &&& position + fill.len() <= data.len()
        &&& fill == data.subrange(position, position + fill.len())
    } else {
        fill.len() == 0
    }
}

/// Whether in this turn the source behaves as a store of `data` that was
/// sought to `start`. When it answers a read with success it appends what
/// [`source_gives`] allows at the offset that the stream has reached, which is
/// `start` plus the bytes already counted off `length`. In every other turn it
/// leaves the buffer alone.
pub open spec fn faithful_turn<E>(
    data: Seq<u8>,
    start: u64,
    length: u64,
    state: StreamModel,
    turn: Turn<E>,
) -> bool {
    if state is Reading && turn.event is Ready {
        source_gives(
            data,
            start + (length - state.remaining()),
            read_limit(state.remaining()),
            turn.fill,
        )
    } else {
        turn.fill.len() == 0
    }
}

/// Whether throughout `turns`, which drive a new stream over `length` bytes
/// from `start`, the source behaves as a store of `data`.
pub open spec fn faithful<E>(data: Seq<u8>, start: u64, length: u64, turns: Seq<Turn<E>>) -> bool
    decreases turns.len(),
{
    turns.len() == 0 || {
        &&& faithful(data, start, length, turns.drop_last())
        &&& faithful_turn(
            data,
            start,
            length,
            state_after(StreamModel::initial(start, length), turns.drop_last()),
            turns.last(),
        )
    }
}

/// Against a source that holds `data`, every run stays within the stream's
/// contract, and what it has delivered at any time is the bytes of `data` that
/// follow `start`, as many of them as were counted off `length`.
pub proof fn lemma_faithful_run_delivers_source_bytes<E>(
    data: Seq<u8>,
    start: u64,
    length: u64,
    turns: Seq<Turn<E>>,
)
    requires
        faithful(data, start, length, turns),
    ensures
        admissible(StreamModel::initial(start, length), turns),
        ({
            let begin = StreamModel::initial(start, length);
            let bytes = delivered(steps_of(begin, turns));
            &&& state_after(begin, turns).idle()
            &&& bytes.len() + state_after(begin, turns).remaining() == length
            &&& bytes.len() > 0 ==> start + bytes.len() <= data.len()
            &&& bytes.len() > 0 ==> bytes == data.subrange(start as int, start + bytes.len())
        }),
    decreases turns.len(),
{
    let begin = StreamModel::initial(start, length);
    if turns.len() > 0 {
        let before = turns.drop_last();
        let turn = turns.last();
        lemma_faithful_run_delivers_source_bytes(data, start, length, before);
        let met = state_after(begin, before);
        let had = delivered(steps_of(begin, before));
        lemma_fill_into_empty(met, turn.fill);
        assert(admits(met, turn));
        lemma_run_accounting(begin, turns);
        lemma_steps_before_last(begin, turns);
        let step = deliver(met, turn).1;
        let bytes = delivered(steps_of(begin, turns));
        assert(bytes == had + bytes_of(step));
        if bytes_of(step).len() > 0 {
            assert(step == StepModel::<E>::Chunk(turn.fill));
            assert(bytes =~= data.subrange(start as int, start + bytes.len()));
        } else {
            assert(bytes =~= had);
        }
    }
}

/// When the source holds the whole range, a run that the stream ends has
/// delivered the range: `length` bytes, which are the bytes of the source from
/// `start` on.
pub proof fn lemma_complete_run_delivers_the_range<E>(
    data: Seq<u8>,
    start: u64,
    length: u64,
    turns: Seq<Turn<E>>,
)
    requires
        start + length <= data.len(),
        faithful(data, start, length, turns),
        turns.len() > 0,
        steps_of(StreamModel::initial(start, length), turns).last() is End,
    ensures
        delivered(steps_of(StreamModel::initial(start, length), turns)).len() == length,
        delivered(steps_of(StreamModel::initial(start, length), turns)) == data.subrange(
            start as int,
            start + length,
        ),
{
    lemma_ended_run(data, start, length, turns);
    let bytes = delivered(steps_of(StreamModel::initial(start, length), turns));
    if bytes.len() == 0 {
        assert(bytes =~= data.subrange(start as int, start + length));
    }
}

/// When the source ends inside the range, a run that the stream ends has
/// delivered what the source holds from `start` on, and that is less than was
/// asked for.
pub proof fn lemma_short_source_delivers_what_it_has<E>(
    data: Seq<u8>,
    start: u64,
    length: u64,
    turns: Seq<Turn<E>>,
)
    requires
        start <= data.len() < start + length,
        faithful(data, start, length, turns),
        turns.len() > 0,
        steps_of(StreamModel::initial(start, length), turns).last() is End,
    ensures
        delivered(steps_of(StreamModel::initial(start, length), turns)).len() == data.len()
            - start,
        delivered(steps_of(StreamModel::initial(start, length), turns)).len() < length,
        delivered(steps_of(StreamModel::initial(start, length), turns)) == data.subrange(
            start as int,
            data.len() as int,
        ),
{
    lemma_ended_run(data, start, length, turns);
    let bytes = delivered(steps_of(StreamModel::initial(start, length), turns));
    if bytes.len() == 0 {
        assert(bytes =~= data.subrange(start as int, data.len() as int));
    }
}

/// The stream ends a run against a source that holds `data` only when the
/// range is delivered in full or the source has no byte left at the offset
/// reached.
pub proof fn lemma_ended_run<E>(data: Seq<u8>, start: u64, length: u64, turns: Seq<Turn<E>>)
    requires
        faithful(data, start, length, turns),
        turns.len() > 0,
        steps_of(StreamModel::initial(start, length), turns).last() is End,
    ensures
        ({
            let begin = StreamModel::initial(start, length);
            let bytes = delivered(steps_of(begin, turns));
            &&& bytes.len() + state_after(begin, turns).remaining() == length
            &&& bytes.len() == length || start + bytes.len() >= data.len()
            &&& bytes.len() > 0 ==> start + bytes.len() <= data.len()
            &&& bytes.len() > 0 ==> bytes == data.subrange(start as int, start + bytes.len())
        }),
{
    let begin = StreamModel::initial(start, length);
    let before = turns.drop_last();
    let turn = turns.last();
    lemma_faithful_run_delivers_source_bytes(data, start, length, turns);
    lemma_faithful_run_delivers_source_bytes(data, start, length, before);
    lemma_steps_len(begin, before);
    let met = state_after(begin, before);
    assert(deliver(met, turn).1 is End);
    lemma_fill_into_empty(met, turn.fill);
}

} // verus!
