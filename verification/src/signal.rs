//! What comes of a reading when the sensor answers and sends a whole frame.

use vstd::prelude::*;
use crate::dhtxx::{
    decoded, idle_reader, with_bit, Action, Error, Event, Progress, Reading, ReadingState, Stage,
    Timing,
};

verus! {

/// The reader after the hardware has given `events`, one after the other,
/// and how the reading stands then. Events that come after the reading's
/// result are not looked at.
pub open spec fn run(state: ReadingState, events: Seq<Event>) -> (ReadingState, Progress)
    decreases events.len(),
{
    if events.len() == 0 {
        (
            state,
            match state.pending() {
                Some(action) => Progress::Perform(action),
                None => Progress::Idle,
            },
        )
    } else if events.len() > 1 && state.step(events[0]).1 is Perform {
        run(state.step(events[0]).0, events.skip(1))
    } else {
        state.step(events[0])
    }
}

/// Events that leave the reading under way can be followed by more: the
/// reader goes on from where the first events left it.
pub proof fn lemma_run_joins(state: ReadingState, first: Seq<Event>, second: Seq<Event>)
    requires
        first.len() > 0,
        second.len() > 0,
        run(state, first).1 is Perform,
    ensures
        run(state, first + second) == run(run(state, first).0, second),
    decreases first.len(),
{
    let all = first + second;
    assert(all[0] == first[0]);
    if first.len() > 1 {
        lemma_run_joins(state.step(first[0]).0, first.skip(1), second);
        assert(all.skip(1) =~= first.skip(1) + second);
    } else {
        assert(all.skip(1) =~= second);
    }
}

/// The events of a line that is at the level waited for at the first look.
pub open spec fn level_reached(level: bool) -> Seq<Event> {
    seq![Event::Done, Event::Level(level)]
}

/// The events of a line that is not at the level waited for when the
/// countdown has run out.
pub open spec fn level_missed(level: bool) -> Seq<Event> {
    seq![Event::Done, Event::Level(!level), Event::Elapsed(true)]
}

/// The events of a sensor that is asked for a reading: the line is pulled
/// low, held for its time and released.
pub open spec fn asked() -> Seq<Event> {
    seq![Event::Done, Event::Done, Event::Elapsed(true), Event::Done]
}

/// The events of a sensor that answers: the line goes low, high and low
/// again, each at the first look.
pub open spec fn answered() -> Seq<Event> {
    level_reached(false) + level_reached(true) + level_reached(false)
}

/// The events of one bit on the line: the line goes high, and then low
/// again within the span of a zero bit, or after it.
pub open spec fn bit_sent(bit: bool) -> Seq<Event> {
    if bit {
        level_reached(true) + level_missed(false) + level_reached(false)
    } else {
        level_reached(true) + level_reached(false)
    }
}

/// The events of a run of bits on the line.
pub open spec fn bits_sent(bits: Seq<bool>) -> Seq<Event>
    decreases bits.len(),
{
    if bits.len() == 0 {
        Seq::empty()
    } else {
        bit_sent(bits[0]) + bits_sent(bits.skip(1))
    }
}

/// The events of the pin being taken back and driven high.
pub open spec fn restored() -> Seq<Event> {
    seq![Event::Done, Event::Done]
}

/// The byte that a run of bits makes, the first bit as the most significant
/// of those that fit.
pub open spec fn byte_of(bits: Seq<bool>) -> u8
    decreases bits.len(),
{
    if bits.len() == 0 {
        0
    } else {
        with_bit(byte_of(bits.drop_last()), bits.last())
    }
}

/// The five bytes that forty bits make, eight bits to the byte.
pub open spec fn frame_of(bits: Seq<bool>) -> Seq<u8> {
    Seq::new(5, |k: int| byte_of(bits.subrange(8 * k, 8 * k + 8)))
}

/// The reader is at the start of a bit.
pub open spec fn at_bit_start(state: ReadingState) -> bool {
    state.stage == Stage::BitStart(state.bit_start_wait())
}

/// What the reader holds is what the bits `seen` make: whole bytes in the
/// frame, and the bits after them in the byte that is being filled.
pub open spec fn holds(state: ReadingState, seen: Seq<bool>) -> bool {
    &&& seen.len() == 8 * state.frame.len() + state.filled
    &&& forall|k: int|
        0 <= k < state.frame.len() ==> #[trigger] state.frame[k] == byte_of(
            seen.subrange(8 * k, 8 * k + 8),
        )
    &&& state.current == byte_of(seen.subrange(8 * (state.frame.len() as int), seen.len() as int))
}

/// A bit on the line is received as that bit.
pub proof fn lemma_bit_is_received(state: ReadingState, bit: bool)
    requires
        state.wf(),
        at_bit_start(state),
    ensures
        run(state, bit_sent(bit)) == state.receive(bit),
{
    let events = bit_sent(bit);
    let s1 = state.step(events[0]).0;
    let s2 = s1.step(events[1]).0;
    let s3 = s2.step(events[2]).0;
    assert(events.skip(1)[0] == events[1]);
    assert(events.skip(1).skip(1)[0] == events[2]);
    assert(events.skip(1).skip(1).skip(1)[0] == events[3]);
    assert(s2.stage == Stage::BitShort(state.short_wait()));
    if bit {
        let s4 = s3.step(events[3]).0;
        let s5 = s4.step(events[4]).0;
        let s6 = s5.step(events[5]).0;
        assert(events.len() == 7);
        assert(events.skip(1).skip(1).skip(1).skip(1)[0] == events[4]);
        assert(events.skip(1).skip(1).skip(1).skip(1).skip(1)[0] == events[5]);
        assert(events.skip(1).skip(1).skip(1).skip(1).skip(1).skip(1)[0] == events[6]);
        assert(s5.stage == Stage::BitLong(state.long_wait()));
        assert(s6.step(events[6]) == state.receive(true));
        assert(run(s6, events.skip(1).skip(1).skip(1).skip(1).skip(1).skip(1)) == state.receive(true));
        assert(run(s5, events.skip(1).skip(1).skip(1).skip(1).skip(1)) == state.receive(true));
        assert(run(s4, events.skip(1).skip(1).skip(1).skip(1)) == state.receive(true));
        assert(run(s3, events.skip(1).skip(1).skip(1)) == state.receive(true));
        assert(run(s2, events.skip(1).skip(1)) == state.receive(true));
        assert(run(s1, events.skip(1)) == state.receive(true));
    } else {
        assert(events.len() == 4);
        assert(s3.step(events[3]) == state.receive(false));
        assert(run(s3, events.skip(1).skip(1).skip(1)) == state.receive(false));
        assert(run(s2, events.skip(1).skip(1)) == state.receive(false));
        assert(run(s1, events.skip(1)) == state.receive(false));
    }
}

proof fn lemma_run_from(state: ReadingState, events: Seq<Event>, at: int)
    requires
        0 <= at < events.len(),
        at < events.len() - 1 ==> state.step(events[at]).1 is Perform,
    ensures
        run(state, events.subrange(at, events.len() as int)) == if at < events.len() - 1 {
            run(state.step(events[at]).0, events.subrange(at + 1, events.len() as int))
        } else {
            state.step(events[at])
        },
{
    let from = events.subrange(at, events.len() as int);
    assert(from[0] == events[at]);
    assert(from.skip(1) =~= events.subrange(at + 1, events.len() as int));
}

/// The reader with `timing` at the start of the first bit.
pub open spec fn first_bit(timing: Timing) -> ReadingState {
    ReadingState {
        stage: Stage::BitStart(idle_reader(timing).bit_start_wait()),
        ..idle_reader(timing)
    }
}

/// A sensor that is asked and answers takes the reader to the start of the
/// first bit.
pub proof fn lemma_sensor_answers(timing: Timing)
    requires
        timing.valid(),
    ensures
        run(ReadingState { stage: Stage::Request, ..idle_reader(timing) }, asked() + answered()).0
            == first_bit(timing),
        run(ReadingState { stage: Stage::Request, ..idle_reader(timing) }, asked() + answered()).1
            is Perform,
{
    let events = asked() + answered();
    let s0 = ReadingState { stage: Stage::Request, ..idle_reader(timing) };
    assert(events.len() == 10);
    assert(events =~= seq![
        Event::Done,
        Event::Done,
        Event::Elapsed(true),
        Event::Done,
        Event::Done,
        Event::Level(false),
        Event::Done,
        Event::Level(true),
        Event::Done,
        Event::Level(false),
    ]);
    assert(events.subrange(0, 10) =~= events);
    let s1 = s0.step(events[0]).0;
    let s2 = s1.step(events[1]).0;
    let s3 = s2.step(events[2]).0;
    let s4 = s3.step(events[3]).0;
    let s5 = s4.step(events[4]).0;
    let s6 = s5.step(events[5]).0;
    let s7 = s6.step(events[6]).0;
    let s8 = s7.step(events[7]).0;
    let s9 = s8.step(events[8]).0;
    assert(s4.stage == Stage::Handshake { seen: 0, wait: s0.handshake_wait(0) });
    assert(s6.stage == Stage::Handshake { seen: 1, wait: s0.handshake_wait(1) });
    assert(s8.stage == Stage::Handshake { seen: 2, wait: s0.handshake_wait(2) });
    lemma_run_from(s0, events, 0);
    lemma_run_from(s1, events, 1);
    lemma_run_from(s2, events, 2);
    lemma_run_from(s3, events, 3);
    lemma_run_from(s4, events, 4);
    lemma_run_from(s5, events, 5);
    lemma_run_from(s6, events, 6);
    lemma_run_from(s7, events, 7);
    lemma_run_from(s8, events, 8);
    lemma_run_from(s9, events, 9);
}

/// The reader with `timing` that has received a whole frame and knows what
/// it decodes to.
pub open spec fn concluded(timing: Timing, result: Result<Reading, Error>) -> ReadingState {
    ReadingState { stage: Stage::Claim, result, ..idle_reader(timing) }
}

proof fn lemma_bit_count(bits: Seq<bool>)
    ensures
        bits.len() > 0 ==> bits_sent(bits).len() > 0,
{
    if bits.len() > 0 {
        assert(bit_sent(bits[0]).len() >= 4);
    }
}

/// The bits that complete a frame take the reader from the start of a bit
/// to the frame's result: what the frame of all the bits decodes to.
pub proof fn lemma_bits_are_received(state: ReadingState, seen: Seq<bool>, bits: Seq<bool>)
    requires
        state.wf(),
        at_bit_start(state),
        holds(state, seen),
        seen.len() + bits.len() == 40,
        bits.len() > 0,
        state.result == idle_reader(state.timing).result,
    ensures
        run(state, bits_sent(bits)) == (
            concluded(state.timing, decoded(frame_of(seen + bits))),
            Progress::Perform(Action::Claim),
        ),
    decreases bits.len(),
{
    let bit = bits[0];
    let all = seen + bits;
    let grown = seen.push(bit);
    let full = state.frame.len() as int;
    lemma_bit_is_received(state, bit);
    let next = state.receive(bit).0;
    let byte = with_bit(state.current, bit);
    let partial = grown.subrange(8 * full, grown.len() as int);
    assert(partial.drop_last() =~= seen.subrange(8 * full, seen.len() as int));
    assert(partial.last() == bit);
    assert(byte == byte_of(partial));
    if bits.len() == 1 {
        assert(bits_sent(bits.skip(1)) =~= Seq::<Event>::empty());
        assert(bits_sent(bits) =~= bit_sent(bit));
        assert(all =~= grown);
        assert(state.filled == 7 && full == 4);
        assert(state.frame.push(byte) =~= frame_of(all)) by {
            assert forall|k: int| 0 <= k < 5 implies state.frame.push(byte)[k] == frame_of(all)[k] by {
                if k < 4 {
                    assert(all.subrange(8 * k, 8 * k + 8) =~= seen.subrange(8 * k, 8 * k + 8));
                } else {
                    assert(all.subrange(32, 40) =~= partial);
                }
            }
        }
        assert(next =~= concluded(state.timing, decoded(frame_of(all))));
    } else {
        assert(holds(next, grown)) by {
            assert forall|k: int| 0 <= k < next.frame.len() implies #[trigger] next.frame[k]
                == byte_of(grown.subrange(8 * k, 8 * k + 8)) by {
                if k < full {
                    assert(grown.subrange(8 * k, 8 * k + 8) =~= seen.subrange(8 * k, 8 * k + 8));
                } else {
                    assert(grown.subrange(8 * k, 8 * k + 8) =~= partial);
                }
            }
            if state.filled == 7 {
                assert(grown.subrange(8 * (next.frame.len() as int), grown.len() as int)
                    =~= Seq::<bool>::empty());
            }
        }
        assert(grown + bits.skip(1) =~= all);
        lemma_bits_are_received(next, grown, bits.skip(1));
        lemma_bit_count(bits.skip(1));
        lemma_run_joins(state, bit_sent(bit), bits_sent(bits.skip(1)));
    }
}

/// A reading from a sensor that answers and sends forty bits gives what the
/// frame of those bits decodes to: its reading where the checksum holds, and
/// `IncorrectParity` where it does not. The result is given when the pin has
/// been taken back and driven high, and the reader is idle again.
pub proof fn lemma_reading_of_a_frame(timing: Timing, bits: Seq<bool>)
    requires
        timing.valid(),
        bits.len() == 40,
    ensures
        run(
            ReadingState { stage: Stage::Request, ..idle_reader(timing) },
            asked() + answered() + bits_sent(bits) + restored(),
        ) == (
            ReadingState { result: decoded(frame_of(bits)), ..idle_reader(timing) },
            Progress::Finished(decoded(frame_of(bits))),
        ),
{
    let start = ReadingState { stage: Stage::Request, ..idle_reader(timing) };
    let result = decoded(frame_of(bits));
    lemma_sensor_answers(timing);
    let first = first_bit(timing);
    assert(holds(first, Seq::<bool>::empty())) by {
        assert(Seq::<bool>::empty().subrange(0, 0) =~= Seq::<bool>::empty());
    }
    assert(Seq::<bool>::empty() + bits =~= bits);
    lemma_bits_are_received(first, Seq::empty(), bits);
    lemma_bit_count(bits);
    lemma_run_joins(start, asked() + answered(), bits_sent(bits));
    let closing = restored();
    let claimed = concluded(timing, result);
    assert(closing.skip(1)[0] == closing[1]);
    assert(run(claimed.step(closing[0]).0, closing.skip(1)) == claimed.step(closing[0]).0.step(
        closing[1],
    ));
    assert(run(claimed, closing) == (
        ReadingState { result, ..idle_reader(timing) },
        Progress::Finished(result),
    ));
    lemma_run_joins(start, asked() + answered() + bits_sent(bits), closing);
}

} // verus!
