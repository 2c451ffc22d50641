use sleep_sort::engine::Engine;
use sleep_sort::protocol::{Action, Event, Failure, Phase};

/// Launches every element and turns to the channel; returns the elements in
/// the order in which they were launched.
fn dispatch_all<T: std::fmt::Debug + PartialEq>(engine: &mut Engine<T>) -> Vec<T> {
    let mut launched = Vec::new();
    loop {
        match engine.step(Event::Proceed) {
            Action::Launch(item) => launched.push(item),
            Action::CloseSender => break,
            other => panic!("unexpected action {:?}", other),
        }
    }
    assert_eq!(engine.phase(), Phase::Closing);
    assert_eq!(engine.step(Event::Proceed), Action::Receive);
    assert_eq!(engine.phase(), Phase::Collecting);
    launched
}

/// Runs a whole sort in which the channel delivers `arrivals` in that order.
fn replay<T: std::fmt::Debug + PartialEq>(input: Vec<T>, arrivals: Vec<T>) -> Option<Vec<T>> {
    let mut engine = Engine::new(input);
    dispatch_all(&mut engine);
    for item in arrivals {
        assert_eq!(engine.step(Event::Arrived(item)), Action::Receive);
    }
    assert_eq!(engine.step(Event::Exhausted), Action::Finish);
    engine.into_output()
}

fn count<T: PartialEq>(items: &[T], wanted: &T) -> usize {
    items.iter().filter(|item| *item == wanted).count()
}

#[test]
fn participants_is_the_input_length() {
    assert_eq!(Engine::<u32>::new(vec![]).participants(), 0);
    assert_eq!(Engine::new(vec![7u32]).participants(), 1);
    assert_eq!(Engine::new(vec![7u32, 8, 9, 7]).participants(), 4);
}

#[test]
fn participants_stays_fixed_during_the_sort() {
    let mut engine = Engine::new(vec![1u8, 2, 3]);
    assert_eq!(engine.step(Event::Proceed), Action::Launch(3));
    assert_eq!(engine.participants(), 3);
    dispatch_all(&mut engine);
    assert_eq!(engine.participants(), 3);
    assert_eq!(engine.step(Event::Arrived(2)), Action::Receive);
    assert_eq!(engine.participants(), 3);
}

#[test]
fn new_engine_is_dispatching() {
    let engine = Engine::new(vec![1u8]);
    assert_eq!(engine.phase(), Phase::Dispatching);
    assert_eq!(engine.into_output(), None);
}

#[test]
fn elements_are_launched_from_the_back() {
    let mut engine = Engine::new(vec![10u32, 20, 30]);
    assert_eq!(engine.step(Event::Proceed), Action::Launch(30));
    assert_eq!(engine.step(Event::Proceed), Action::Launch(20));
    assert_eq!(engine.step(Event::Proceed), Action::Launch(10));
    assert_eq!(engine.phase(), Phase::Dispatching);
    assert_eq!(engine.step(Event::Proceed), Action::CloseSender);
    assert_eq!(engine.phase(), Phase::Closing);
    assert_eq!(engine.step(Event::Proceed), Action::Receive);
    assert_eq!(engine.phase(), Phase::Collecting);
}

#[test]
fn every_element_is_launched_once() {
    let input = vec![5u32, 3, 5, 1, 3, 5];
    let mut engine = Engine::new(input.clone());
    let launched = dispatch_all(&mut engine);
    assert_eq!(launched, vec![5, 3, 1, 5, 3, 5]);
    for value in [1u32, 3, 5, 7] {
        assert_eq!(count(&launched, &value), count(&input, &value));
    }
}

#[test]
fn output_follows_the_order_of_arrival() {
    assert_eq!(replay(vec![3u32, 1, 2], vec![1, 2, 3]), Some(vec![1, 2, 3]));
    assert_eq!(replay(vec![3u32, 1, 2], vec![2, 3, 1]), Some(vec![2, 3, 1]));
}

#[test]
fn output_is_not_the_input_handed_back() {
    let input = vec![9u32, 4];
    let sorted = replay(input.clone(), vec![4, 9]).unwrap();
    assert_ne!(sorted, input);
    assert_eq!(sorted, vec![4, 9]);
}

#[test]
fn multiset_is_preserved_for_sizes_zero_one_and_many() {
    let cases: Vec<(Vec<u32>, Vec<u32>)> = vec![
        (vec![], vec![]),
        (vec![4], vec![4]),
        (vec![2, 7, 2, 9, 7, 2], vec![7, 2, 2, 9, 2, 7]),
    ];
    for (input, arrivals) in cases {
        let sorted = replay(input.clone(), arrivals).unwrap();
        assert_eq!(sorted.len(), input.len());
        for value in [2u32, 4, 7, 9, 11] {
            assert_eq!(count(&sorted, &value), count(&input, &value));
        }
    }
}

#[test]
fn empty_input_launches_nothing_and_completes() {
    let mut engine: Engine<u32> = Engine::new(Vec::new());
    assert_eq!(engine.participants(), 0);
    assert_eq!(engine.step(Event::Proceed), Action::CloseSender);
    assert_eq!(engine.step(Event::Proceed), Action::Receive);
    assert_eq!(engine.step(Event::Exhausted), Action::Finish);
    assert_eq!(engine.phase(), Phase::Complete);
    assert_eq!(engine.into_output(), Some(Vec::new()));
}

#[test]
fn single_element_comes_back() {
    let mut engine = Engine::new(vec![42u32]);
    assert_eq!(engine.step(Event::Proceed), Action::Launch(42));
    assert_eq!(engine.step(Event::Proceed), Action::CloseSender);
    assert_eq!(engine.step(Event::Proceed), Action::Receive);
    assert_eq!(engine.step(Event::Arrived(42)), Action::Receive);
    assert_eq!(engine.step(Event::Exhausted), Action::Finish);
    assert_eq!(engine.into_output(), Some(vec![42]));
}

#[test]
fn ties_return_every_element() {
    let input = vec![(5u32, 'a'), (5, 'b'), (5, 'c')];
    let sorted = replay(input.clone(), vec![(5, 'b'), (5, 'c'), (5, 'a')]).unwrap();
    assert_eq!(sorted.len(), 3);
    for item in &input {
        assert_eq!(count(&sorted, item), 1);
    }
}

#[test]
fn a_sort_takes_two_reports_for_each_element_and_three_more() {
    for n in [0usize, 1, 2, 5] {
        let input: Vec<usize> = (0..n).collect();
        let mut engine = Engine::new(input.clone());
        let mut reports = 0usize;
        let mut event = Event::Proceed;
        let mut waiting: Vec<usize> = Vec::new();
        loop {
            let action = engine.step(event);
            reports += 1;
            event = match action {
                Action::Launch(item) => {
                    waiting.push(item);
                    Event::Proceed
                }
                Action::CloseSender => Event::Proceed,
                Action::Receive => match waiting.pop() {
                    Some(item) => Event::Arrived(item),
                    None => Event::Exhausted,
                },
                Action::Finish => break,
                Action::Fail(failure) => panic!("sort failed: {:?}", failure),
            };
        }
        assert_eq!(reports, 2 * n + 3);
        assert_eq!(engine.into_output(), Some(input));
    }
}

#[test]
fn channel_running_dry_early_is_incomplete() {
    let mut engine = Engine::new(vec![1u32, 2, 3]);
    dispatch_all(&mut engine);
    assert_eq!(engine.step(Event::Arrived(1)), Action::Receive);
    assert_eq!(engine.step(Event::Arrived(2)), Action::Receive);
    assert_eq!(engine.step(Event::Exhausted), Action::Fail(Failure::Incomplete));
    assert_eq!(engine.phase(), Phase::Failed(Failure::Incomplete));
    assert_eq!(engine.into_output(), None);
}

#[test]
fn one_element_too_many_is_surplus() {
    let mut engine = Engine::new(vec![1u32]);
    dispatch_all(&mut engine);
    assert_eq!(engine.step(Event::Arrived(1)), Action::Receive);
    assert_eq!(engine.step(Event::Arrived(1)), Action::Fail(Failure::Surplus));
    assert_eq!(engine.phase(), Phase::Failed(Failure::Surplus));
    assert_eq!(engine.into_output(), None);
}

#[test]
fn arrival_on_empty_input_is_surplus() {
    let mut engine: Engine<u32> = Engine::new(Vec::new());
    dispatch_all(&mut engine);
    assert_eq!(engine.step(Event::Arrived(1)), Action::Fail(Failure::Surplus));
}

#[test]
fn arrival_while_dispatching_is_out_of_turn() {
    let mut engine = Engine::new(vec![1u32, 2]);
    assert_eq!(engine.step(Event::Proceed), Action::Launch(2));
    assert_eq!(engine.step(Event::Arrived(2)), Action::Fail(Failure::OutOfTurn));
    assert_eq!(engine.phase(), Phase::Failed(Failure::OutOfTurn));
}

#[test]
fn exhaustion_while_dispatching_is_out_of_turn() {
    let mut engine = Engine::new(vec![1u32]);
    assert_eq!(engine.step(Event::Exhausted), Action::Fail(Failure::OutOfTurn));
    assert_eq!(engine.phase(), Phase::Failed(Failure::OutOfTurn));
}

#[test]
fn anything_but_proceed_while_closing_is_out_of_turn() {
    let mut engine: Engine<u32> = Engine::new(Vec::new());
    assert_eq!(engine.step(Event::Proceed), Action::CloseSender);
    assert_eq!(engine.step(Event::Exhausted), Action::Fail(Failure::OutOfTurn));

    let mut engine: Engine<u32> = Engine::new(Vec::new());
    assert_eq!(engine.step(Event::Proceed), Action::CloseSender);
    assert_eq!(engine.step(Event::Arrived(3)), Action::Fail(Failure::OutOfTurn));
}

#[test]
fn proceed_while_collecting_is_out_of_turn() {
    let mut engine = Engine::new(vec![1u32]);
    dispatch_all(&mut engine);
    assert_eq!(engine.step(Event::Proceed), Action::Fail(Failure::OutOfTurn));
    assert_eq!(engine.into_output(), None);
}

#[test]
fn a_complete_sort_repeats_its_verdict() {
    let mut engine = Engine::new(vec![1u32, 2]);
    dispatch_all(&mut engine);
    assert_eq!(engine.step(Event::Arrived(1)), Action::Receive);
    assert_eq!(engine.step(Event::Arrived(2)), Action::Receive);
    assert_eq!(engine.step(Event::Exhausted), Action::Finish);
    assert_eq!(engine.step(Event::Arrived(9)), Action::Finish);
    assert_eq!(engine.step(Event::Proceed), Action::Finish);
    assert_eq!(engine.step(Event::Exhausted), Action::Finish);
    assert_eq!(engine.phase(), Phase::Complete);
    assert_eq!(engine.into_output(), Some(vec![1, 2]));
}

#[test]
fn a_failed_sort_repeats_its_verdict() {
    let mut engine = Engine::new(vec![1u32]);
    dispatch_all(&mut engine);
    assert_eq!(engine.step(Event::Exhausted), Action::Fail(Failure::Incomplete));
    assert_eq!(engine.step(Event::Arrived(1)), Action::Fail(Failure::Incomplete));
    assert_eq!(engine.step(Event::Exhausted), Action::Fail(Failure::Incomplete));
    assert_eq!(engine.step(Event::Proceed), Action::Fail(Failure::Incomplete));
    assert_eq!(engine.phase(), Phase::Failed(Failure::Incomplete));
}

#[test]
fn output_is_withheld_until_the_sort_is_complete() {
    let mut engine = Engine::new(vec![1u32]);
    dispatch_all(&mut engine);
    assert_eq!(engine.step(Event::Arrived(1)), Action::Receive);
    assert_eq!(engine.phase(), Phase::Collecting);
    assert_eq!(engine.into_output(), None);
}

#[test]
fn elements_need_not_be_comparable_or_copyable() {
    let input = vec![String::from("pear"), String::from("fig")];
    let mut engine = Engine::new(input);
    let launched = dispatch_all(&mut engine);
    assert_eq!(launched, vec![String::from("fig"), String::from("pear")]);
    for item in launched {
        assert_eq!(engine.step(Event::Arrived(item)), Action::Receive);
    }
    assert_eq!(engine.step(Event::Exhausted), Action::Finish);
    assert_eq!(engine.into_output(), Some(vec![String::from("fig"), String::from("pear")]));
}

#[test]
fn three_waits_delivered_shortest_first_come_out_ascending() {
    let sorted = replay(vec![0.3f64, 0.1, 0.2], vec![0.1, 0.2, 0.3]);
    assert_eq!(sorted, Some(vec![0.1, 0.2, 0.3]));
}

#[test]
fn widely_spaced_waits_delivered_shortest_first_come_out_ascending() {
    let mut engine = Engine::new(vec![2.0f64, 0.0, 1.0]);
    let mut launched = dispatch_all(&mut engine);
    assert_eq!(launched, vec![1.0, 0.0, 2.0]);
    launched.sort_by(|a, b| a.partial_cmp(b).unwrap());
    for item in launched {
        assert_eq!(engine.step(Event::Arrived(item)), Action::Receive);
    }
    assert_eq!(engine.step(Event::Exhausted), Action::Finish);
    assert_eq!(engine.into_output(), Some(vec![0.0, 1.0, 2.0]));
}

#[test]
fn a_full_delivery_completes_in_any_order() {
    let orders: Vec<Vec<u32>> = vec![
        vec![1, 2, 3],
        vec![1, 3, 2],
        vec![2, 1, 3],
        vec![2, 3, 1],
        vec![3, 1, 2],
        vec![3, 2, 1],
    ];
    for order in orders {
        assert_eq!(replay(vec![1u32, 2, 3], order.clone()), Some(order));
    }
}
