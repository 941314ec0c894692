//! What holds of every run of a stream.
//!
//! A run is a sequence of turns. In one turn the source appends some bytes to
//! the stream's buffer (none, unless it answers a read with success) and
//! gives its answer, and the stream makes the transition that
//! [`RangedStream::advance`](crate::stream::RangedStream::advance) makes. The
//! laws are stated over that transition, so they hold of whatever drives the
//! executable stream within its contract.

use crate::buffer::IO_BUFFER_SIZE;
use crate::model::{read_limit, Event, StepModel, StreamModel};
use vstd::prelude::*;

verus! {

/// One exchange with the source: what it appended to the buffer, and what it
/// answered.
pub struct Turn<E> {
    pub fill: Seq<u8>,
    pub event: Event<E>,
}

/// Whether the turn is within the contract of the stream in state `state`.
pub open spec fn admits<E>(state: StreamModel, turn: Turn<E>) -> bool {
    state.after_fill(turn.fill).accepts(turn.event)
}

/// The state after the turn, and what the stream yields for it.
pub open spec fn deliver<E>(state: StreamModel, turn: Turn<E>) -> (StreamModel, StepModel<E>) {
    state.after_fill(turn.fill).transition(turn.event)
}

/// The state after all of `turns`, taken in order from `state`.
pub open spec fn state_after<E>(state: StreamModel, turns: Seq<Turn<E>>) -> StreamModel
    decreases turns.len(),
{
    if turns.len() == 0 {
        state
    } else {
        deliver(state_after(state, turns.drop_last()), turns.last()).0
    }
}

/// What the stream yields for each of `turns`, taken in order from `state`.
pub open spec fn steps_of<E>(state: StreamModel, turns: Seq<Turn<E>>) -> Seq<StepModel<E>>
    decreases turns.len(),
{
    if turns.len() == 0 {
        Seq::empty()
    } else {
        steps_of(state, turns.drop_last()).push(
            deliver(state_after(state, turns.drop_last()), turns.last()).1,
        )
    }
}

/// Whether every one of `turns` is within the stream's contract when its
/// time comes.
pub open spec fn admissible<E>(state: StreamModel, turns: Seq<Turn<E>>) -> bool
    decreases turns.len(),
{
    turns.len() == 0 || {
        &&& admissible(state, turns.drop_last())
        &&& admits(state_after(state, turns.drop_last()), turns.last())
    }
}

/// The bytes of a step: those of a chunk, none for anything else.
pub open spec fn bytes_of<E>(step: StepModel<E>) -> Seq<u8> {
    match step {
        StepModel::Chunk(bytes) => bytes,
        _ => Seq::empty(),
    }
}

/// All the bytes that `steps` hand to the consumer, in order.
pub open spec fn delivered<E>(steps: Seq<StepModel<E>>) -> Seq<u8>
    decreases steps.len(),
{
    if steps.len() == 0 {
        Seq::empty()
    } else {
        delivered(steps.drop_last()) + bytes_of(steps.last())
    }
}

/// A turn in which the source only answers, leaving the buffer alone.
pub open spec fn bare<E>(event: Event<E>) -> Turn<E> {
    Turn { fill: Seq::empty(), event }
}

/// A source that is not ready changes nothing: the state stays as it was,
/// what remains with it, and no item is yielded.
pub proof fn lemma_pending_changes_nothing<E>(state: StreamModel)
    requires
        state.idle(),
    ensures
        admits(state, bare(Event::<E>::Pending)),
        deliver(state, bare(Event::<E>::Pending)) == (state, StepModel::<E>::Pending),
{
    lemma_empty_fill(state);
}

/// A failure of the source, in whatever phase, is yielded as the one item of
/// its turn and leaves the state as it was.
pub proof fn lemma_failure_is_passed_on<E>(state: StreamModel, error: E)
    requires
        state.idle(),
    ensures
        admits(state, bare(Event::Failed(error))),
        deliver(state, bare(Event::Failed(error))) == (state, StepModel::Failed(error)),
{
    lemma_empty_fill(state);
}

/// A read that fills nothing ends the sequence, however much remains: the
/// state stays as it was and no failure is yielded.
pub proof fn lemma_empty_read_ends<E>(remaining: u64)
    ensures
        ({
            let state = StreamModel::Reading { filled: Seq::empty(), remaining };
            &&& admits(state, bare(Event::<E>::Ready))
            &&& deliver(state, bare(Event::<E>::Ready)) == (state, StepModel::<E>::End)
        }),
{
    lemma_empty_fill(StreamModel::Reading { filled: Seq::empty(), remaining });
}

/// What is put into an empty buffer is then all that the buffer holds.
/// Outside the read phase there is no buffer, and the state stays as it was.
pub proof fn lemma_fill_into_empty(state: StreamModel, fill: Seq<u8>)
    requires
        state.idle(),
    ensures
        state is Reading ==> state.after_fill(fill) == (StreamModel::Reading {
            filled: fill,
            remaining: state.remaining(),
        }),
        !(state is Reading) ==> state.after_fill(fill) == state,
{
    match state {
        StreamModel::Reading { filled, remaining } => {
            assert(filled + fill =~= fill);
        },
        _ => {},
    }
}

/// Appending nothing to the buffer leaves the state as it was.
pub proof fn lemma_empty_fill(state: StreamModel)
    ensures
        state.after_fill(Seq::empty()) == state,
{
    match state {
        StreamModel::Reading { filled, remaining } => {
            assert(filled + Seq::<u8>::empty() =~= filled);
        },
        _ => {},
    }
}

/// One turn within the contract leaves the buffer empty, and takes off what
/// remains exactly the bytes it yields.
pub proof fn lemma_turn_accounting<E>(state: StreamModel, turn: Turn<E>)
    requires
        state.idle(),
        admits(state, turn),
    ensures
        deliver(state, turn).0.idle(),
        bytes_of(deliver(state, turn).1).len() + deliver(state, turn).0.remaining()
            == state.remaining(),
        deliver(state, turn).1 is Chunk ==> 0 < bytes_of(deliver(state, turn).1).len()
            <= read_limit(state.remaining()),
{
    lemma_fill_into_empty(state, turn.fill);
}

/// Throughout a run within the contract, the bytes delivered so far and the
/// bytes that remain add up to the length asked for, so what remains never
/// grows, and the buffer is empty between turns.
pub proof fn lemma_run_accounting<E>(state: StreamModel, turns: Seq<Turn<E>>)
    requires
        state.idle(),
        admissible(state, turns),
    ensures
        state_after(state, turns).idle(),
        steps_of(state, turns).len() == turns.len(),
        delivered(steps_of(state, turns)).len() + state_after(state, turns).remaining()
            == state.remaining(),
    decreases turns.len(),
{
    if turns.len() > 0 {
        let before = turns.drop_last();
        lemma_run_accounting(state, before);
        lemma_turn_accounting(state_after(state, before), turns.last());
        lemma_steps_before_last(state, turns);
    }
}

/// The first `n` turns of a run within the contract are such a run too, and
/// yield the first `n` steps.
pub proof fn lemma_run_prefix<E>(state: StreamModel, turns: Seq<Turn<E>>, n: int)
    requires
        admissible(state, turns),
        0 <= n <= turns.len(),
    ensures
        admissible(state, turns.take(n)),
        steps_of(state, turns.take(n)) == steps_of(state, turns).take(n),
    decreases turns.len(),
{
    lemma_prefix_without_last(turns, n);
    lemma_steps_len(state, turns);
    if n == turns.len() {
        lemma_prefix_without_last(steps_of(state, turns), n);
    } else {
        let before = turns.drop_last();
        lemma_run_prefix(state, before, n);
        lemma_steps_before_last(state, turns);
        lemma_prefix_without_last(steps_of(state, turns), n);
    }
}

/// The steps of a run without its last turn are the steps of the run without
/// the last of them, and the last step is the one that the last turn yields.
pub proof fn lemma_steps_before_last<E>(state: StreamModel, turns: Seq<Turn<E>>)
    requires
        turns.len() > 0,
    ensures
        steps_of(state, turns).len() == turns.len(),
        steps_of(state, turns).drop_last() == steps_of(state, turns.drop_last()),
        steps_of(state, turns).last() == deliver(
            state_after(state, turns.drop_last()),
            turns.last(),
        ).1,
{
    lemma_steps_len(state, turns.drop_last());
    assert(steps_of(state, turns).drop_last() =~= steps_of(state, turns.drop_last()));
}

/// The first `n` items of a sequence are the whole of it when `n` is its
/// length, and are the first `n` of all but its last item when `n` is less.
pub proof fn lemma_prefix_without_last<A>(items: Seq<A>, n: int)
    requires
        0 <= n <= items.len(),
    ensures
        n == items.len() ==> items.take(n) == items,
        n < items.len() ==> items.drop_last().take(n) == items.take(n),
{
    if n == items.len() {
        assert(items.take(n) =~= items);
    } else {
        assert(items.drop_last().take(n) =~= items.take(n));
    }
}

/// A run yields one step for each turn.
pub proof fn lemma_steps_len<E>(state: StreamModel, turns: Seq<Turn<E>>)
    ensures
        steps_of(state, turns).len() == turns.len(),
    decreases turns.len(),
{
    if turns.len() > 0 {
        lemma_steps_len(state, turns.drop_last());
    }
}

/// The chunks of a run cut the range into consecutive pieces. Counting from
/// the start of the range, step `i` begins where the bytes delivered before
/// it end, and ends within the range. A chunk is never empty and never longer
/// than one buffer, so the boundaries of the chunks strictly increase; a step
/// that is no chunk delivers nothing.
pub proof fn lemma_chunks_partition_the_range<E>(
    start: u64,
    length: u64,
    turns: Seq<Turn<E>>,
    i: int,
)
    requires
        admissible(StreamModel::initial(start, length), turns),
        0 <= i < turns.len(),
    ensures
        ({
            let steps = steps_of(StreamModel::initial(start, length), turns);
            let begin = delivered(steps.take(i)).len();
            let end = delivered(steps.take(i + 1)).len();
            &&& steps.len() == turns.len()
            &&& end == begin + bytes_of(steps[i]).len()
            &&& end <= length
            &&& steps[i] is Chunk ==> 0 < bytes_of(steps[i]).len() <= IO_BUFFER_SIZE
            &&& delivered(steps.take(i + 1)) == delivered(steps.take(i)) + bytes_of(steps[i])
        }),
{
    let state = StreamModel::initial(start, length);
    let steps = steps_of(state, turns);
    let upto = turns.take(i + 1);
    lemma_steps_len(state, turns);
    lemma_run_prefix(state, turns, i + 1);
    lemma_run_prefix(state, turns, i);
    assert(upto.drop_last() =~= turns.take(i));
    assert(upto.last() == turns[i]);
    lemma_run_accounting(state, turns.take(i));
    lemma_run_accounting(state, upto);
    lemma_turn_accounting(state_after(state, turns.take(i)), turns[i]);
    assert(steps.take(i + 1).drop_last() =~= steps.take(i));
    assert(steps.take(i + 1).last() == steps[i]);
}

/// However often a source that is not ready is asked again, the state stays
/// as it was and every step is `Pending`: nothing is yielded, and what
/// remains does not change.
pub proof fn lemma_suspension_is_idempotent<E>(state: StreamModel, turns: Seq<Turn<E>>)
    requires
        state.idle(),
        forall|i: int| 0 <= i < turns.len() ==> turns[i] == bare(Event::<E>::Pending),
    ensures
        admissible(state, turns),
        state_after(state, turns) == state,
        steps_of(state, turns).len() == turns.len(),
        forall|i: int| 0 <= i < turns.len() ==> steps_of(state, turns)[i] is Pending,
        delivered(steps_of(state, turns)).len() == 0,
    decreases turns.len(),
{
    if turns.len() > 0 {
        let before = turns.drop_last();
        lemma_suspension_is_idempotent(state, before);
        lemma_pending_changes_nothing::<E>(state);
        assert(turns.last() == bare(Event::<E>::Pending));
        lemma_steps_before_last(state, turns);
    }
}

/// The stream yields a failure for a turn exactly when the source failed in
/// that turn, and then it yields the source's own error. An early end of the
/// source is therefore never a failure.
pub proof fn lemma_failures_come_from_the_source<E>(
    state: StreamModel,
    turns: Seq<Turn<E>>,
    i: int,
)
    requires
        0 <= i < turns.len(),
    ensures
        steps_of(state, turns).len() == turns.len(),
        steps_of(state, turns)[i] is Failed <==> turns[i].event is Failed,
        turns[i].event matches Event::Failed(error) ==> steps_of(state, turns)[i]
            == StepModel::Failed(error),
    decreases turns.len(),
{
    lemma_steps_len(state, turns);
    if i < turns.len() - 1 {
        lemma_failures_come_from_the_source(state, turns.drop_last(), i);
    }
}

/// A run that stops while bytes remain has delivered fewer bytes than were
/// asked for: exactly as many fewer as remain.
pub proof fn lemma_short_run_delivers_less<E>(start: u64, length: u64, turns: Seq<Turn<E>>)
    requires
        admissible(StreamModel::initial(start, length), turns),
        state_after(StreamModel::initial(start, length), turns).remaining() > 0,
    ensures
        delivered(steps_of(StreamModel::initial(start, length), turns)).len() < length,
        delivered(steps_of(StreamModel::initial(start, length), turns)).len() == length
            - state_after(StreamModel::initial(start, length), turns).remaining(),
{
    lemma_run_accounting(StreamModel::initial(start, length), turns);
}

/// A turn never takes the stream back to an earlier phase. It moves on by
/// exactly one phase when its step is `Continue`, and stays in its phase
/// otherwise.
pub proof fn lemma_turn_advances_one_phase<E>(state: StreamModel, turn: Turn<E>)
    ensures
        deliver(state, turn).0.phase() == state.phase() + (if deliver(state, turn).1
            is Continue {
            1nat
        } else {
            0nat
        }),
        deliver(state, turn).0.phase() <= 2,
{
}

/// Through a whole run the phase never goes back: after the first `n` turns
/// the stream is no further than at the end.
pub proof fn lemma_phase_never_reverts<E>(state: StreamModel, turns: Seq<Turn<E>>, n: int)
    requires
        0 <= n <= turns.len(),
    ensures
        state.phase() <= state_after(state, turns.take(n)).phase() <= state_after(
            state,
            turns,
        ).phase(),
    decreases turns.len(),
{
    lemma_prefix_without_last(turns, n);
    if n == turns.len() {
        lemma_phase_from_start(state, turns);
    } else {
        let before = turns.drop_last();
        lemma_phase_never_reverts(state, before, n);
        lemma_turn_advances_one_phase(state_after(state, before), turns.last());
    }
}

/// A run ends no earlier in the phases than it began.
pub proof fn lemma_phase_from_start<E>(state: StreamModel, turns: Seq<Turn<E>>)
    ensures
        state.phase() <= state_after(state, turns).phase(),
    decreases turns.len(),
{
    if turns.len() > 0 {
        lemma_phase_from_start(state, turns.drop_last());
        lemma_turn_advances_one_phase(state_after(state, turns.drop_last()), turns.last());
    }
}

/// Whether `turns` make up one pass of polling: the stream is driven on while
/// it yields `Continue`, and the pass ends with the first step that is
/// anything else.
pub open spec fn is_pass<E>(state: StreamModel, turns: Seq<Turn<E>>) -> bool {
    &&& turns.len() > 0
    &&& forall|i: int|
        0 <= i < turns.len() - 1 ==> #[trigger] steps_of(state, turns)[i] is Continue
    &&& !(steps_of(state, turns).last() is Continue)
}

/// Steps among which there is no chunk deliver no bytes.
pub proof fn lemma_no_chunk_no_bytes<E>(steps: Seq<StepModel<E>>)
    requires
        forall|i: int| 0 <= i < steps.len() ==> !(#[trigger] steps[i] is Chunk),
    ensures
        delivered(steps).len() == 0,
    decreases steps.len(),
{
    if steps.len() > 0 {
        lemma_no_chunk_no_bytes(steps.drop_last());
    }
}

/// When the source fails during a pass, in whatever phase, the failure ends
/// the pass: it is the last step and the only failure, no step of the pass is
/// a chunk, and the stream is left in the state in which it met the failure.
pub proof fn lemma_failure_ends_the_pass<E>(state: StreamModel, turns: Seq<Turn<E>>, i: int)
    requires
        state.idle(),
        admissible(state, turns),
        is_pass(state, turns),
        0 <= i < turns.len(),
        turns[i].event is Failed,
    ensures
        i == turns.len() - 1,
        steps_of(state, turns).len() == turns.len(),
        turns[i].event matches Event::Failed(error) && steps_of(state, turns).last()
            == StepModel::Failed(error),
        forall|j: int|
            0 <= j < turns.len() && j != i ==> !(#[trigger] steps_of(state, turns)[j] is Failed),
        forall|j: int| 0 <= j < turns.len() ==> !(#[trigger] steps_of(state, turns)[j] is Chunk),
        delivered(steps_of(state, turns)).len() == 0,
        state_after(state, turns) == state_after(state, turns.drop_last()),
{
    let steps = steps_of(state, turns);
    lemma_failures_come_from_the_source(state, turns, i);
    assert(steps[i] is Failed);
    if i < turns.len() - 1 {
        assert(steps[i] is Continue);
    }
    assert forall|j: int| 0 <= j < turns.len() implies !(#[trigger] steps[j] is Chunk) by {
        if j < turns.len() - 1 {
            assert(steps[j] is Continue);
        }
    }
    lemma_no_chunk_no_bytes(steps);
    let before = turns.drop_last();
    lemma_run_prefix(state, turns, turns.len() - 1);
    assert(turns.take(turns.len() - 1) =~= before);
    lemma_run_accounting(state, before);
    let met = state_after(state, before);
    lemma_fill_into_empty(met, turns.last().fill);
    assert(met.after_fill(turns.last().fill).filled() =~= met.filled());
}

} // verus!
