//! What holds of every sort.

use vstd::prelude::*;
use vstd::multiset::Multiset;
use vstd::seq_lib::{lemma_multiset_commutative, to_multiset_build, to_multiset_len};
use crate::model::State;
use crate::protocol::{Event, Failure, Phase};

verus! {

/// A multiset that is part of another and as large as it is equal to it.
proof fn lemma_part_of_equal_size<T>(part: Multiset<T>, whole: Multiset<T>)
    requires
        part.subset_of(whole),
        part.len() == whole.len(),
    ensures
        part == whole,
{
    broadcast use vstd::multiset::group_multiset_axioms;

    let rest = whole.sub(part);
    assert(rest.len() == 0);
    assert forall|v: T| part.count(v) == whole.count(v) by {
        assert(rest.count(v) <= rest.len());
        assert(rest.count(v) == whole.count(v) - part.count(v));
    }
    assert(part =~= whole);
}

/// No report changes what the sort was given: an element leaves `pending`
/// only to stand in `launched`, and it does so once.
pub proof fn lemma_step_keeps_supplied<T>(state: State<T>, event: Event<T>)
    ensures
        state.next(event).supplied() == state.supplied(),
        state.next(event).total() == state.total(),
{
    let after = state.next(event);
    if state.phase is Dispatching && event is Proceed && state.pending.len() > 0 {
        assert(after.supplied() =~= state.supplied());
    }
}

/// A well-formed state stays well-formed, whatever is reported.
pub proof fn lemma_step_keeps_well_formed<T>(state: State<T>, event: Event<T>)
    requires
        state.well_formed(),
    ensures
        state.next(event).well_formed(),
{
}

/// Every report brings a running sort nearer to its end, so a sort of `n`
/// elements is over after `2 * n + 3` reports at most, whatever they are.
pub proof fn lemma_step_makes_progress<T>(state: State<T>, event: Event<T>)
    requires
        state.well_formed(),
        !state.phase.is_over(),
    ensures
        state.next(event).remaining() < state.remaining(),
        State::init(state.supplied()).remaining() == 2 * state.total() + 3,
{
    assert(State::init(state.supplied()).pending.len() == state.total());
}

/// While the channel delivers only what is in flight, what has come back
/// stays part of what went out.
pub proof fn lemma_step_keeps_accounted<T>(state: State<T>, event: Event<T>)
    requires
        state.accounted(),
        state.admits(event),
    ensures
        state.next(event).accounted(),
{
    broadcast use vstd::multiset::group_multiset_axioms;

    let after = state.next(event);
    let out = state.output.to_multiset();
    let gone = state.launched.to_multiset();
    if state.phase is Dispatching && event is Proceed && state.pending.len() > 0 {
        let item = state.pending.last();
        lemma_multiset_commutative(seq![item], state.launched);
        assert forall|v: T| after.output.to_multiset().count(v) <= after.launched.to_multiset().count(
            v,
        ) by {
            assert(out.count(v) <= gone.count(v));
        }
    } else if state.phase is Collecting && event is Arrived && state.output.len()
        < state.total() {
        let item = event->Arrived_0;
        to_multiset_build(state.output, item);
        assert forall|v: T| after.output.to_multiset().count(v) <= after.launched.to_multiset().count(
            v,
        ) by {
            assert(out.count(v) <= gone.count(v));
            assert(state.in_flight().count(item) > 0);
        }
    }
}

/// Every element is in one place: waiting, in flight, or back. Nothing is
/// lost and nothing is there twice.
pub proof fn lemma_every_element_in_one_place<T>(state: State<T>)
    requires
        state.accounted(),
    ensures
        state.pending.to_multiset().add(state.in_flight()).add(state.output.to_multiset())
            == state.supplied().to_multiset(),
{
    broadcast use vstd::multiset::group_multiset_axioms;

    lemma_multiset_commutative(state.pending, state.launched);
    let out = state.output.to_multiset();
    let gone = state.launched.to_multiset();
    assert forall|v: T|
        state.pending.to_multiset().add(state.in_flight()).add(out).count(v)
            == state.supplied().to_multiset().count(v) by {
        assert(out.count(v) <= gone.count(v));
    }
    assert(state.pending.to_multiset().add(state.in_flight()).add(out)
        =~= state.supplied().to_multiset());
}

/// A complete sort returns as many elements as it was given, whatever the
/// channel did.
pub proof fn lemma_complete_returns_as_many<T>(state: State<T>)
    requires
        state.well_formed(),
        state.phase is Complete,
    ensures
        state.output.len() == state.supplied().len(),
{
}

/// A complete sort returns the elements that it was given, each as often as
/// it was given: the output is the input in another order.
pub proof fn lemma_complete_returns_every_element<T>(state: State<T>)
    requires
        state.well_formed(),
        state.accounted(),
        state.phase is Complete,
    ensures
        state.output.to_multiset() == state.supplied().to_multiset(),
{
    to_multiset_len(state.output);
    to_multiset_len(state.launched);
    lemma_part_of_equal_size(state.output.to_multiset(), state.launched.to_multiset());
    assert(state.supplied() =~= state.launched);
}

/// What holds after any sequence of reports: the state is well-formed and
/// still speaks of the same input; and what has come back is part of what
/// went out, if the channel delivered only what was in flight.
pub proof fn lemma_run_keeps_invariants<T>(input: Seq<T>, events: Seq<Event<T>>)
    ensures
        State::init(input).run(events).well_formed(),
        State::init(input).run(events).supplied() == input,
        State::init(input).admits_all(events) ==> State::init(input).run(events).accounted(),
    decreases events.len(),
{
    broadcast use vstd::multiset::group_multiset_axioms;

    let start = State::init(input);
    if events.len() == 0 {
        assert(start.supplied() =~= input);
        to_multiset_len(start.output);
        assert forall|v: T| start.output.to_multiset().count(v) == 0 by {
            assert(start.output.to_multiset().count(v) <= start.output.to_multiset().len());
        }
    } else {
        let before = start.run(events.drop_last());
        lemma_run_keeps_invariants(input, events.drop_last());
        lemma_step_keeps_supplied(before, events.last());
        lemma_step_keeps_well_formed(before, events.last());
        if start.admits_all(events) {
            lemma_step_keeps_accounted(before, events.last());
        }
    }
}

/// The output of a complete sort holds the elements of the input, each as
/// often as the input does, in whatever order the channel delivered them.
pub proof fn lemma_sort_reorders<T>(input: Seq<T>, events: Seq<Event<T>>)
    requires
        State::init(input).admits_all(events),
        State::init(input).run(events).phase is Complete,
    ensures
        State::init(input).run(events).output.to_multiset() == input.to_multiset(),
        State::init(input).run(events).output.len() == input.len(),
{
    lemma_run_keeps_invariants(input, events);
    lemma_complete_returns_every_element(State::init(input).run(events));
}

/// Running two sequences of reports one after the other is running them
/// joined.
pub proof fn lemma_run_joined<T>(state: State<T>, first: Seq<Event<T>>, second: Seq<Event<T>>)
    ensures
        state.run(first + second) == state.run(first).run(second),
    decreases second.len(),
{
    if second.len() == 0 {
        assert(first + second =~= first);
    } else {
        assert((first + second).drop_last() =~= first + second.drop_last());
        assert((first + second).last() == second.last());
        lemma_run_joined(state, first, second.drop_last());
    }
}

/// After `count` launches the last `count` elements of the input are with
/// their tasks and the others wait.
proof fn lemma_launches<T>(input: Seq<T>, count: nat)
    requires
        count <= input.len(),
    ensures
        State::init(input).run(Seq::new(count, |i: int| Event::Proceed)) == (State {
            pending: input.take(input.len() - count),
            launched: input.skip(input.len() - count),
            output: Seq::empty(),
            phase: Phase::Dispatching,
        }),
    decreases count,
{
    let start = State::init(input);
    let events = Seq::new(count, |i: int| Event::<T>::Proceed);
    let after = State {
        pending: input.take(input.len() - count),
        launched: input.skip(input.len() - count),
        output: Seq::empty(),
        phase: Phase::Dispatching,
    };
    if count == 0 {
        assert(start =~= after);
    } else {
        let fewer = (count - 1) as nat;
        lemma_launches(input, fewer);
        assert(events.drop_last() =~= Seq::new(fewer, |i: int| Event::<T>::Proceed));
        let before = start.run(events.drop_last());
        assert(before.pending.len() > 0);
        assert(before.next(Event::Proceed) =~= after);
    }
}

/// While fewer elements are back than went out, each arrival is appended to
/// the output and nothing else changes.
proof fn lemma_arrivals<T>(state: State<T>, arrivals: Seq<T>)
    requires
        state.phase is Collecting,
        state.output.len() + arrivals.len() <= state.total(),
    ensures
        state.run(Seq::new(arrivals.len(), |i: int| Event::Arrived(arrivals[i]))) == (State {
            output: state.output + arrivals,
            ..state
        }),
    decreases arrivals.len(),
{
    let events = Seq::new(arrivals.len(), |i: int| Event::Arrived(arrivals[i]));
    let after = State { output: state.output + arrivals, ..state };
    if arrivals.len() == 0 {
        assert(state =~= after);
    } else {
        let earlier = arrivals.drop_last();
        lemma_arrivals(state, earlier);
        assert(events.drop_last() =~= Seq::new(earlier.len(), |i: int| Event::Arrived(earlier[i])));
        assert(events.last() == Event::Arrived(arrivals.last()));
        let before = state.run(events.drop_last());
        assert(before.next(events.last()) =~= after);
    }
}

/// A sort to which the channel delivers as many elements as it was given
/// completes, and its output is the deliveries in their order: the engine
/// puts no order of its own on the elements. If the channel runs dry earlier,
/// the sort breaks off as incomplete.
pub proof fn lemma_output_is_order_of_arrival<T>(input: Seq<T>, arrivals: Seq<T>)
    requires
        arrivals.len() <= input.len(),
    ensures
        State::init(input).run(State::reports(input.len(), arrivals)) == (State {
            pending: Seq::empty(),
            launched: input,
            output: arrivals,
            phase: if arrivals.len() == input.len() {
                Phase::Complete
            } else {
                Phase::Failed(Failure::Incomplete)
            },
        }),
{
    let n = input.len();
    let start = State::init(input);
    let launches = Seq::new(n, |i: int| Event::<T>::Proceed);
    let proceeds = Seq::new(n + 2, |i: int| Event::<T>::Proceed);
    let deliveries = Seq::new(arrivals.len(), |i: int| Event::Arrived(arrivals[i]));
    let dry = seq![Event::<T>::Exhausted];

    lemma_launches(input, n);
    let launched = start.run(launches);
    assert(launched.launched =~= input);
    assert(launched.pending =~= Seq::empty());

    let closing = seq![Event::<T>::Proceed, Event::Proceed];
    assert(proceeds =~= launches + closing);
    lemma_run_joined(start, launches, closing);
    assert(closing.drop_last() =~= seq![Event::<T>::Proceed]);
    assert(closing.drop_last().drop_last() =~= Seq::<Event<T>>::empty());
    assert(launched.run(closing.drop_last().drop_last()) == launched);
    assert(launched.run(closing.drop_last()).phase == Phase::Closing);
    let collecting = launched.run(closing);
    assert(collecting == State { phase: Phase::Collecting, ..launched });

    lemma_arrivals(collecting, arrivals);
    lemma_run_joined(start, proceeds, deliveries);
    let collected = collecting.run(deliveries);
    assert(collected.output =~= arrivals);

    lemma_run_joined(start, proceeds + deliveries, dry);
    assert(dry.drop_last() =~= Seq::<Event<T>>::empty());
    assert(collected.run(dry.drop_last()) == collected);
    assert(collected.run(dry) == collected.next(Event::Exhausted));
}

/// With nothing to sort, no task is ever launched, three reports complete
/// the sort without an element being waited for, and a complete sort returns
/// nothing.
pub proof fn lemma_empty_input<T>(events: Seq<Event<T>>, event: Event<T>)
    ensures
        !(State::init(Seq::<T>::empty()).run(events).action(event) is Launch),
        State::init(Seq::<T>::empty()).run(events).phase is Complete ==> State::init(
            Seq::<T>::empty(),
        ).run(events).output == Seq::<T>::empty(),
        State::init(Seq::<T>::empty()).run(
            seq![Event::Proceed, Event::Proceed, Event::Exhausted],
        ) == (State {
            pending: Seq::<T>::empty(),
            launched: Seq::<T>::empty(),
            output: Seq::<T>::empty(),
            phase: Phase::Complete,
        }),
{
    let start = State::init(Seq::<T>::empty());
    lemma_run_keeps_invariants(Seq::<T>::empty(), events);
    let state = start.run(events);
    assert(state.pending.len() == 0 && state.launched.len() == 0) by {
        assert(state.supplied().len() == 0);
    }
    if state.phase is Complete {
        assert(state.output =~= Seq::<T>::empty());
    }
    let three = seq![Event::<T>::Proceed, Event::Proceed, Event::Exhausted];
    let two = seq![Event::<T>::Proceed, Event::Proceed];
    let one = seq![Event::<T>::Proceed];
    assert(three.drop_last() =~= two);
    assert(two.drop_last() =~= one);
    assert(one.drop_last() =~= Seq::<Event<T>>::empty());
    assert(start.run(one.drop_last()) == start);
    assert(start.run(one).phase == Phase::Closing);
    assert(start.run(two).phase == Phase::Collecting);
    assert(start.run(three) =~= (State {
        pending: Seq::<T>::empty(),
        launched: Seq::<T>::empty(),
        output: Seq::<T>::empty(),
        phase: Phase::Complete,
    }));
}

/// A complete sort of one element returns that element.
pub proof fn lemma_single_element<T>(item: T, events: Seq<Event<T>>)
    requires
        State::init(seq![item]).admits_all(events),
        State::init(seq![item]).run(events).phase is Complete,
    ensures
        State::init(seq![item]).run(events).output == seq![item],
{
    broadcast use vstd::seq_lib::group_to_multiset_ensures;

    let input = seq![item];
    let state = State::init(input).run(events);
    lemma_sort_reorders(input, events);
    assert(input.contains(item)) by {
        assert(input[0] == item);
    }
    assert(input.to_multiset().count(item) > 0);
    assert(state.output.to_multiset().count(state.output[0]) > 0) by {
        assert(state.output.contains(state.output[0]));
    }
    assert(input.contains(state.output[0]));
    assert(state.output =~= input);
}

} // verus!
