//! What holds of every run of the controller, whatever the disks answer.

use crate::attribute::{read_order, Attribute};
use crate::controller::{
    phase_after_disk, read_outcome, step, Event, Gate, Outcome, Phase, ProtocolError,
};
use crate::registry::{
    lemma_unwritten_entry_stays, record_all, same_entry, writes, EntryKey, Registry, Value,
};
use crate::sample::Reading;
use vstd::prelude::*;

verus! {

/// A controller of `disks` disks that stands in `phase` and is fed `events` one after
/// another: the phase it ends in and the outcomes of the events it took, in order. An event
/// that is turned down changes nothing.
pub open spec fn run(disks: usize, phase: Phase, events: Seq<Event>) -> (Phase, Seq<Outcome>)
    decreases events.len(),
{
    if events.len() == 0 {
        (phase, Seq::empty())
    } else {
        match step(disks, phase, events.first()) {
            Ok((next, outcome)) => {
                let (last, outcomes) = run(disks, next, events.drop_first());
                (last, seq![outcome] + outcomes)
            },
            Err(_) => run(disks, phase, events.drop_first()),
        }
    }
}

/// How many cycles the outcomes begin.
pub open spec fn started(outcomes: Seq<Outcome>) -> nat
    decreases outcomes.len(),
{
    if outcomes.len() == 0 {
        0
    } else if outcomes.first() == Outcome::Started {
        1 + started(outcomes.drop_first())
    } else {
        started(outcomes.drop_first())
    }
}

/// How many cycles the outcomes end.
pub open spec fn finished(outcomes: Seq<Outcome>) -> nat
    decreases outcomes.len(),
{
    if outcomes.len() == 0 {
        0
    } else if outcomes.first() == Outcome::Finished {
        1 + finished(outcomes.drop_first())
    } else {
        finished(outcomes.drop_first())
    }
}

/// How many cycles run in a phase: one or none.
pub open spec fn running(phase: Phase) -> nat {
    if phase.gate() == Gate::Collecting {
        1
    } else {
        0
    }
}

/// Whether a run stays within the cycle it begins in: none of the events it takes begins
/// another. A request that comes while the cycle runs is turned down and does not count.
pub open spec fn within_one_cycle(disks: usize, phase: Phase, events: Seq<Event>) -> bool {
    started(run(disks, phase, events).1) == 0
}

/// How far a cycle over `disks` disks has come in `phase`: each disk takes eleven places,
/// one for its refresh and one for each attribute, and the signal and the wait for the next
/// request come after the last disk.
pub open spec fn progress(disks: usize, phase: Phase) -> int {
    match phase {
        Phase::Refreshing { disk } => 11 * disk,
        Phase::Sampling { disk, attribute } => 11 * disk + 1 + attribute.position(),
        Phase::Signalling => 11 * disks,
        Phase::Idle => 11 * disks + 1,
    }
}

/// The place in a cycle at which `outcome` publishes, if it does.
pub open spec fn published_at(outcome: Outcome) -> Option<int> {
    match outcome {
        Outcome::Published { sample } => Some(11 * sample.disk + 1 + sample.attribute.position()),
        _ => None,
    }
}

/// A run in two parts is the run over the first part, then from where that ended the run
/// over the second.
pub proof fn lemma_run_in_parts(disks: usize, phase: Phase, first: Seq<Event>, second: Seq<Event>)
    ensures
        run(disks, phase, first + second).0 == run(
            disks,
            run(disks, phase, first).0,
            second,
        ).0,
        run(disks, phase, first + second).1 == run(disks, phase, first).1 + run(
            disks,
            run(disks, phase, first).0,
            second,
        ).1,
    decreases first.len(),
{
    if first.len() == 0 {
        assert(first + second =~= second);
        assert(Seq::<Outcome>::empty() + run(disks, phase, second).1 =~= run(
            disks,
            phase,
            second,
        ).1);
    } else {
        assert((first + second).drop_first() =~= first.drop_first() + second);
        assert((first + second).first() == first.first());
        match step(disks, phase, first.first()) {
            Ok((next, outcome)) => {
                lemma_run_in_parts(disks, next, first.drop_first(), second);
                let head = run(disks, next, first.drop_first());
                let tail = run(disks, head.0, second);
                assert(seq![outcome] + (head.1 + tail.1) =~= (seq![outcome] + head.1) + tail.1);
            },
            Err(_) => {
                lemma_run_in_parts(disks, phase, first.drop_first(), second);
            },
        }
    }
}

/// The cycles that outcomes begin are those that their first part begins and those that
/// the rest begins.
pub proof fn lemma_started_in_parts(first: Seq<Outcome>, second: Seq<Outcome>)
    ensures
        started(first + second) == started(first) + started(second),
    decreases first.len(),
{
    if first.len() == 0 {
        assert(first + second =~= second);
    } else {
        assert((first + second).drop_first() =~= first.drop_first() + second);
        lemma_started_in_parts(first.drop_first(), second);
    }
}

/// A cycle only moves forward: within one cycle a run ends no earlier than it began, and
/// each sample is published at its own place, not before the place the run began at and
/// before the place it ended at.
pub proof fn lemma_cycle_moves_forward(disks: usize, phase: Phase, events: Seq<Event>)
    requires
        phase.within(disks),
        within_one_cycle(disks, phase, events),
    ensures
        run(disks, phase, events).0.within(disks),
        progress(disks, phase) <= progress(disks, run(disks, phase, events).0),
        forall|i: int|
            0 <= i < run(disks, phase, events).1.len() ==> (#[trigger] published_at(
                run(disks, phase, events).1[i],
            ) matches Some(place) ==> progress(disks, phase) <= place < progress(
                disks,
                run(disks, phase, events).0,
            )),
    decreases events.len(),
{
    if events.len() > 0 {
        let rest = events.drop_first();
        match step(disks, phase, events.first()) {
            Ok((next, outcome)) => {
                let tail = run(disks, next, rest);
                let all = run(disks, phase, events);
                assert(all.1 == seq![outcome] + tail.1);
                assert(all.1.drop_first() =~= tail.1);
                assert(outcome != Outcome::Started && started(tail.1) == 0);
                lemma_cycle_moves_forward(disks, next, rest);
                assert(progress(disks, phase) <= progress(disks, next));
                assert forall|i: int| 0 <= i < all.1.len() implies (#[trigger] published_at(
                    all.1[i],
                ) matches Some(place) ==> progress(disks, phase) <= place < progress(
                    disks,
                    all.0,
                )) by {
                    if i > 0 {
                        assert(all.1[i] == tail.1[i - 1]);
                    }
                }
            },
            Err(_) => {
                lemma_cycle_moves_forward(disks, phase, rest);
            },
        }
    }
}

/// An event is taken where it answers the pending command and nowhere else, and every event
/// that is taken within a cycle brings the cycle forward by at least one of its
/// `11 * disks + 1` places: whatever the disks answer, the cycle gets to its signal.
pub proof fn lemma_answers_bring_the_cycle_forward(disks: usize, phase: Phase, event: Event)
    requires
        phase.within(disks),
    ensures
        step(disks, phase, event) is Ok <==> phase.command().answered_by(event),
        step(disks, phase, event) matches Ok((next, _)) ==> next.within(disks),
        step(disks, phase, event) matches Ok((next, _)) ==> (phase != Phase::Idle ==> progress(
            disks,
            phase,
        ) < progress(disks, next) <= 11 * disks + 1),
{
}

/// The registry is written within cycles only: a step that publishes a sample is taken
/// while a cycle runs and leaves it running, a cycle begins by no step but the one that
/// takes a request, and ends by no step but the one that takes the sending of its signal.
pub proof fn lemma_writes_stay_within_cycles(disks: usize, phase: Phase, event: Event)
    ensures
        step(disks, phase, event) matches Ok((next, outcome)) ==> {
            &&& outcome is Published ==> phase.gate() == Gate::Collecting && next.gate()
                == Gate::Collecting
            &&& outcome == Outcome::Started <==> phase.gate() == Gate::Idle
            &&& outcome == Outcome::Finished <==> next.gate() == Gate::Idle
        },
{
}

/// As many cycles are finished as were started, but for the one that runs: from any phase
/// on, over any events, the cycles begun and the cycle running before are the cycles ended
/// and the cycle running after.
pub proof fn lemma_cycles_are_balanced(disks: usize, phase: Phase, events: Seq<Event>)
    ensures
        running(phase) + started(run(disks, phase, events).1) == finished(
            run(disks, phase, events).1,
        ) + running(run(disks, phase, events).0),
    decreases events.len(),
{
    if events.len() > 0 {
        match step(disks, phase, events.first()) {
            Ok((next, outcome)) => {
                lemma_cycles_are_balanced(disks, next, events.drop_first());
                let tail = run(disks, next, events.drop_first()).1;
                assert((seq![outcome] + tail).drop_first() =~= tail);
            },
            Err(_) => {
                lemma_cycles_are_balanced(disks, phase, events.drop_first());
            },
        }
    }
}

/// The outcomes that begin or end a cycle, in order.
pub open spec fn signals(outcomes: Seq<Outcome>) -> Seq<Outcome>
    decreases outcomes.len(),
{
    if outcomes.len() == 0 {
        Seq::empty()
    } else if outcomes.first() == Outcome::Started || outcomes.first() == Outcome::Finished {
        seq![outcomes.first()] + signals(outcomes.drop_first())
    } else {
        signals(outcomes.drop_first())
    }
}

/// Whether beginnings and ends take turns in `signals`, with a beginning first if
/// `begins` and an end first if not.
pub open spec fn take_turns(signals: Seq<Outcome>, begins: bool) -> bool {
    forall|i: int|
        0 <= i < signals.len() ==> #[trigger] signals[i] == if (i % 2 == 0) == begins {
            Outcome::Started
        } else {
            Outcome::Finished
        }
}

/// From any phase on, beginnings and ends of cycles take turns: the first is a beginning
/// where no cycle runs, and the end of the running cycle where one does.
pub proof fn lemma_cycles_take_turns(disks: usize, phase: Phase, events: Seq<Event>)
    ensures
        take_turns(signals(run(disks, phase, events).1), phase.gate() == Gate::Idle),
    decreases events.len(),
{
    if events.len() > 0 {
        let rest = events.drop_first();
        match step(disks, phase, events.first()) {
            Ok((next, outcome)) => {
                lemma_cycles_take_turns(disks, next, rest);
                let tail = run(disks, next, rest).1;
                let all = run(disks, phase, events).1;
                assert(all == seq![outcome] + tail);
                assert(all.drop_first() =~= tail);
                let later = signals(tail);
                if outcome == Outcome::Started || outcome == Outcome::Finished {
                    assert(signals(all) == seq![outcome] + later);
                    assert forall|i: int| 0 <= i < signals(all).len() implies #[trigger] signals(
                        all,
                    )[i] == if (i % 2 == 0) == (phase.gate() == Gate::Idle) {
                        Outcome::Started
                    } else {
                        Outcome::Finished
                    } by {
                        if i > 0 {
                            assert(signals(all)[i] == later[i - 1]);
                        }
                    }
                } else {
                    assert(signals(all) == later);
                }
            },
            Err(_) => {
                lemma_cycles_take_turns(disks, phase, rest);
            },
        }
    }
}

/// Requests and finished signals alternate, beginning with a request: whatever events a
/// controller has been fed since it was made, the cycles it began and ended take turns, and
/// it has ended as many as it has begun where it is idle, and one less where it is
/// collecting. Never do two cycles run at once.
pub proof fn lemma_signals_alternate(disks: usize, events: Seq<Event>)
    ensures
        ({
            let (phase, outcomes) = run(disks, Phase::Idle, events);
            &&& take_turns(signals(outcomes), true)
            &&& phase.gate() == Gate::Idle ==> started(outcomes) == finished(outcomes)
            &&& phase.gate() == Gate::Collecting ==> started(outcomes) == finished(outcomes) + 1
        }),
{
    lemma_cycles_are_balanced(disks, Phase::Idle, events);
    lemma_cycles_take_turns(disks, Phase::Idle, events);
}

/// While a cycle runs no other can begin: a request is turned down in every phase but
/// [`Phase::Idle`], and idle the controller becomes only when the signal of the running
/// cycle has been sent.
pub proof fn lemma_request_waits_for_signal(disks: usize, phase: Phase, event: Event)
    ensures
        phase != Phase::Idle ==> step(disks, phase, Event::RequestReceived) == Err::<
            (Phase, Outcome),
            ProtocolError,
        >(ProtocolError::Unexpected),
        phase != Phase::Idle ==> (step(disks, phase, event) matches Ok((next, _)) ==> (next
            == Phase::Idle ==> phase == Phase::Signalling && event == Event::FinishedSent)),
{
}

/// Where the refresh of a disk fails, nothing is written for that disk in the cycle: a run
/// that stays within one cycle and answers the refresh of `disk` with a failure, after `at`
/// events, writes no entry of the disk and so leaves each of them as it was, the entries of
/// all ten metrics.
pub proof fn lemma_failed_refresh_keeps_entries(
    disks: usize,
    phase: Phase,
    events: Seq<Event>,
    at: int,
    disk: usize,
    registry: Registry,
    key: EntryKey,
)
    requires
        phase.within(disks),
        within_one_cycle(disks, phase, events),
        0 <= at < events.len(),
        run(disks, phase, events.take(at)).0 == (Phase::Refreshing { disk }),
        events[at] == (Event::Refreshed { ok: false }),
        key.disk == disk,
    ensures
        forall|i: int|
            0 <= i < run(disks, phase, events).1.len() ==> !writes(
                #[trigger] run(disks, phase, events).1[i],
                key,
            ),
        same_entry(registry, record_all(registry, run(disks, phase, events).1), key),
{
    let before = events.take(at);
    let after = events.skip(at + 1);
    let failure = seq![events[at]];
    let refreshing = Phase::Refreshing { disk };
    let next = phase_after_disk(disks, disk);
    let failed = seq![Outcome::RefreshFailed { disk }];
    assert(events =~= before + (failure + after));
    lemma_run_in_parts(disks, phase, before, failure + after);
    lemma_run_in_parts(disks, refreshing, failure, after);
    assert(run(disks, refreshing, failure) == (next, failed)) by {
        assert(failure.drop_first() =~= Seq::<Event>::empty());
        assert(run(disks, next, failure.drop_first()).1 =~= Seq::<Outcome>::empty());
        assert(failed + Seq::<Outcome>::empty() =~= failed);
    }
    let head = run(disks, phase, before).1;
    let tail = run(disks, next, after).1;
    let all = run(disks, phase, events).1;
    assert(all == head + (failed + tail));
    assert(started(head) == 0 && started(tail) == 0) by {
        lemma_started_in_parts(head, failed + tail);
        lemma_started_in_parts(failed, tail);
    }
    lemma_cycle_moves_forward(disks, phase, before);
    lemma_cycle_moves_forward(disks, next, after);
    assert forall|i: int| 0 <= i < all.len() implies !writes(#[trigger] all[i], key) by {
        if i < head.len() {
            assert(all[i] == head[i]);
            assert(published_at(head[i]) matches Some(place) ==> place < 11 * disk);
        } else if i > head.len() {
            let j = i - head.len() - 1;
            assert(all[i] == tail[j]);
            assert(published_at(tail[j]) matches Some(place) ==> 11 * disk + 11 <= place);
        }
    }
    lemma_unwritten_entry_stays(registry, all, key);
}

/// The events that report `readings`, one read each.
pub open spec fn read_events(readings: Seq<Reading>) -> Seq<Event> {
    Seq::new(readings.len(), |i: int| Event::Read { reading: readings[i] })
}

/// The phase in which the attribute at `position` in the order of reading is awaited from
/// `disk`, and past the last attribute the phase that follows when the disk is done with.
pub open spec fn phase_at(disks: usize, disk: usize, position: int) -> Phase {
    if position < read_order().len() {
        Phase::Sampling { disk, attribute: read_order()[position] }
    } else {
        phase_after_disk(disks, disk)
    }
}

/// Each attribute is dealt with by itself: once a disk is refreshed, whatever its attributes
/// from the one at `from` on answer, a failure or a reading of its kind each, every one of
/// them is read once, in order, and has the outcome of its own reading. No failure keeps
/// another attribute from being read or published.
pub proof fn lemma_reads_are_isolated(
    disks: usize,
    disk: usize,
    from: int,
    readings: Seq<Reading>,
)
    requires
        disk < disks,
        0 <= from < read_order().len(),
        from + readings.len() <= read_order().len(),
        forall|i: int|
            0 <= i < readings.len() ==> #[trigger] readings[i] == Reading::Failed
                || readings[i].fits(read_order()[from + i]),
    ensures
        ({
            let (phase, outcomes) = run(disks, phase_at(disks, disk, from), read_events(readings));
            &&& phase == phase_at(disks, disk, from + readings.len())
            &&& outcomes.len() == readings.len()
            &&& forall|i: int|
                0 <= i < readings.len() ==> Some(#[trigger] outcomes[i]) == read_outcome(
                    disk,
                    read_order()[from + i],
                    readings[i],
                )
        }),
    decreases readings.len(),
{
    let events = read_events(readings);
    if readings.len() > 0 {
        let attribute = read_order()[from];
        let rest = readings.drop_first();
        assert(events.drop_first() =~= read_events(rest));
        assert(readings[0] == Reading::Failed || readings[0].fits(attribute));
        let outcome = read_outcome(disk, attribute, readings[0]).unwrap();
        assert(step(disks, phase_at(disks, disk, from), events.first()) == Ok::<
            (Phase, Outcome),
            ProtocolError,
        >((phase_at(disks, disk, from + 1), outcome)));
        if rest.len() > 0 {
            assert forall|i: int| 0 <= i < rest.len() implies #[trigger] rest[i] == Reading::Failed
                || rest[i].fits(read_order()[from + 1 + i]) by {
                assert(rest[i] == readings[i + 1]);
            }
            lemma_reads_are_isolated(disks, disk, from + 1, rest);
        }
        let tail = run(disks, phase_at(disks, disk, from + 1), read_events(rest));
        let all = run(disks, phase_at(disks, disk, from), events);
        assert(all.1 == seq![outcome] + tail.1);
        assert forall|i: int| 0 <= i < readings.len() implies Some(#[trigger] all.1[i])
            == read_outcome(disk, read_order()[from + i], readings[i]) by {
            if i > 0 {
                assert(all.1[i] == tail.1[i - 1]);
                assert(rest[i - 1] == readings[i]);
            }
        }
    }
}

/// A temperature that cannot be read keeps its entry, and the bad sectors, read next, are
/// published all the same: after the two reads the temperature of the disk is what it was,
/// and its bad sector count is the one just read.
pub proof fn lemma_temperature_failure_spares_bad_sectors(
    disks: usize,
    disk: usize,
    sectors: u64,
    registry: Registry,
)
    requires
        disk < disks,
    ensures
        ({
            let events = seq![
                Event::Read { reading: Reading::Failed },
                Event::Read { reading: Reading::Count(sectors) },
            ];
            let begin = Phase::Sampling { disk, attribute: Attribute::Temperature };
            let (phase, outcomes) = run(disks, begin, events);
            let after = record_all(registry, outcomes);
            let bad_sectors = EntryKey { attribute: Attribute::BadSectors, disk, status: None };
            &&& phase == (Phase::Sampling { disk, attribute: Attribute::PowerCycles })
            &&& forall|key: EntryKey|
                key.attribute == Attribute::Temperature && key.disk == disk
                    ==> #[trigger] same_entry(registry, after, key)
            &&& after.contains_key(bad_sectors)
            &&& after[bad_sectors] == (Value { raw: sectors, divisor: 1 })
        }),
{
    let readings = seq![Reading::Failed, Reading::Count(sectors)];
    let events = seq![
        Event::Read { reading: Reading::Failed },
        Event::Read { reading: Reading::Count(sectors) },
    ];
    assert(events =~= read_events(readings));
    lemma_reads_are_isolated(disks, disk, 2, readings);
    let outcomes = run(
        disks,
        Phase::Sampling { disk, attribute: Attribute::Temperature },
        events,
    ).1;
    assert(Some(outcomes[0]) == read_outcome(disk, read_order()[2], readings[0]));
    assert(Some(outcomes[1]) == read_outcome(disk, read_order()[3], readings[1]));
    reveal_with_fuel(record_all, 3);
    assert(outcomes.drop_first().drop_first().len() == 0);
}

} // verus!
