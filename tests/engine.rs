use futures::FutureExt;
use markov_engine::actor::{State, StateErr};
use markov_engine::machine::{
    compute, Action, Event, MarkovMachine, Phase, Recoverable, BUFFER_CAPACITY,
};
use markov_engine::matrix::{ConfigError, TransitionMatrix, SCALE};
use markov_engine::sink::{BufferedSink, PushError};

fn row_total(m: &TransitionMatrix, r: usize) -> u64 {
    let mut t = 0;
    for c in 0..m.cols() {
        t += m.get(r, c);
    }
    t
}

fn snapshot(m: &TransitionMatrix) -> Vec<Vec<u64>> {
    (0..m.rows()).map(|r| (0..m.cols()).map(|c| m.get(r, c)).collect()).collect()
}

#[test]
fn state_count_is_rows_times_cols() {
    let (machine, _tx) = MarkovMachine::new();
    assert_eq!(machine.states(), 9);
    let m = TransitionMatrix::from_rows(vec![
        vec![250_000_000, 250_000_000, 250_000_000, 250_000_000],
        vec![SCALE, 0, 0, 0],
    ])
    .unwrap();
    assert_eq!(m.state_count(), 8);
    let (machine, _tx) = MarkovMachine::with_config(m, 1, 9).unwrap();
    assert_eq!(machine.states(), 8);
    let single = TransitionMatrix::from_rows(vec![vec![SCALE]]).unwrap();
    assert_eq!(single.state_count(), 1);
}

#[test]
fn standard_matrix_values() {
    let m = TransitionMatrix::standard();
    assert_eq!(
        snapshot(&m),
        vec![
            vec![200_000_000, 300_000_000, 500_000_000],
            vec![600_000_000, 200_000_000, 200_000_000],
            vec![100_000_000, 400_000_000, 500_000_000],
        ]
    );
}

#[test]
fn from_rows_rejects_bad_configurations() {
    assert_eq!(TransitionMatrix::from_rows(vec![]).err(), Some(ConfigError::Empty));
    assert_eq!(TransitionMatrix::from_rows(vec![vec![]]).err(), Some(ConfigError::Empty));
    assert_eq!(
        TransitionMatrix::from_rows(vec![vec![SCALE], vec![SCALE / 2, SCALE / 2]]).err(),
        Some(ConfigError::Ragged)
    );
    assert_eq!(
        TransitionMatrix::from_rows(vec![vec![SCALE / 2, SCALE / 4]]).err(),
        Some(ConfigError::NotStochastic)
    );
    assert_eq!(
        TransitionMatrix::from_rows(vec![vec![u64::MAX, u64::MAX]]).err(),
        Some(ConfigError::NotStochastic)
    );
}

#[test]
fn with_config_rejects_bad_capacities() {
    let m = TransitionMatrix::standard();
    assert_eq!(MarkovMachine::with_config(m, 0, 9).err(), Some(ConfigError::ChannelCapacity));
    let m = TransitionMatrix::standard();
    assert_eq!(MarkovMachine::with_config(m, 1, 0).err(), Some(ConfigError::BufferCapacity));
}

#[test]
fn compute_gives_ratio_in_billionths() {
    assert_eq!(compute(14, 12), Some(1_166_666_666));
    assert_eq!(compute(-3, 2), Some(-1_500_000_000));
    assert_eq!(compute(3, -4), Some(-750_000_000));
    assert_eq!(compute(-3, -4), Some(750_000_000));
    assert_eq!(compute(-1, 3), Some(-333_333_333));
    assert_eq!(compute(0, 7), Some(0));
    assert_eq!(compute(0, -7), Some(0));
    assert_eq!(compute(5, 0), None);
    assert_eq!(compute(i64::MIN, 1), Some(-9_223_372_036_854_775_808i128 * 1_000_000_000));
    assert_eq!(compute(i64::MIN, -1), Some(9_223_372_036_854_775_808i128 * 1_000_000_000));
}

#[test]
fn sink_flushes_only_when_exactly_full() {
    let mut s = BufferedSink::new(3);
    assert!(s.ready());
    assert_eq!(s.try_flush(), None);
    assert_eq!(s.push(1), Ok(()));
    assert_eq!(s.try_flush(), None);
    assert_eq!(s.push(2), Ok(()));
    assert_eq!(s.try_flush(), None);
    assert_eq!(s.push(3), Ok(()));
    assert!(!s.ready());
    assert_eq!(s.push(4), Err(PushError::Full));
    assert_eq!(s.len(), 3);
    assert_eq!(s.try_flush(), Some(vec![1, 2, 3]));
    assert_eq!(s.len(), 0);
    assert_eq!(s.push(4), Ok(()));
    assert_eq!(s.len(), 1);
}

#[test]
fn sink_close_refuses_further_bytes() {
    let mut s = BufferedSink::new(2);
    assert_eq!(s.push(7), Ok(()));
    s.close();
    assert!(s.is_closed());
    assert!(!s.ready());
    assert_eq!(s.push(8), Err(PushError::Closed));
    assert_eq!(s.len(), 1);
    assert_eq!(s.capacity(), 2);
}

#[test]
fn sink_feed_cuts_stream_into_full_records() {
    let mut s = BufferedSink::new(9);
    let bytes: Vec<u8> = (0..20).collect();
    let out = s.feed(&bytes);
    assert_eq!(out, vec![(0..9).collect::<Vec<u8>>(), (9..18).collect::<Vec<u8>>()]);
    assert_eq!(s.len(), 2);
    let more = s.feed(&(20..27).collect());
    assert_eq!(more, vec![(18..27).collect::<Vec<u8>>()]);
    assert_eq!(s.len(), 0);
    assert!(s.feed(&vec![]).is_empty());
}

#[test]
fn zero_divisor_leaves_matrix_unchanged() {
    let (mut machine, _tx) = MarkovMachine::new();
    let before = snapshot(machine.transition_matrix());
    let actor = State::new([1, 2]);
    let r = machine.observe(actor.observation(5, 0));
    assert_eq!(r.err(), Some(Recoverable::NonFinite));
    assert_eq!(snapshot(machine.transition_matrix()), before);
    assert_eq!(machine.buffered(), 0);
    let r = machine.apply([0, 0], None);
    assert_eq!(r.err(), Some(Recoverable::NonFinite));
    assert_eq!(snapshot(machine.transition_matrix()), before);
}

#[test]
fn unknown_state_is_skipped() {
    let (mut machine, _tx) = MarkovMachine::new();
    let before = snapshot(machine.transition_matrix());
    let r = machine.observe(State::new([3, 0]).observation(1, 1));
    assert_eq!(r.err(), Some(Recoverable::UnknownState));
    let r = machine.apply([0, 3], Some(5));
    assert_eq!(r.err(), Some(Recoverable::UnknownState));
    assert_eq!(snapshot(machine.transition_matrix()), before);
    assert_eq!(machine.buffered(), 0);
}

#[test]
fn updates_keep_rows_stochastic() {
    let (mut machine, _tx) = MarkovMachine::new();
    let inputs: [(u8, u8, i64, i64); 6] =
        [(0, 0, 14, 12), (1, 2, -7, 3), (2, 1, 1, 1000), (0, 2, 0, 5), (2, 2, 999_999, 1), (1, 0, i64::MIN, -1)];
    for (r, c, x, y) in inputs {
        let u = machine.observe(State::new([r, c]).observation(x, y)).unwrap();
        let m = machine.transition_matrix();
        assert_eq!(u.cell, m.get(r as usize, c as usize));
        for row in 0..3 {
            assert_eq!(row_total(m, row), SCALE);
        }
    }
}

#[test]
fn huge_rate_takes_whole_row() {
    let (mut machine, _tx) = MarkovMachine::new();
    let u = machine.apply([1, 1], Some(i128::MIN)).unwrap();
    let m = machine.transition_matrix();
    assert_eq!(u.cell, SCALE);
    assert_eq!(snapshot(m)[1], vec![0, SCALE, 0]);
    assert_eq!(u.record, 255);
}

#[test]
fn negative_rate_weighs_as_its_magnitude() {
    let (mut a, _ta) = MarkovMachine::new();
    let (mut b, _tb) = MarkovMachine::new();
    let ua = a.observe(State::new([2, 0]).observation(-14, 12)).unwrap();
    let ub = b.apply([2, 0], Some(1_166_666_666)).unwrap();
    assert_eq!(ua.cell, ub.cell);
    assert_eq!(snapshot(a.transition_matrix()), snapshot(b.transition_matrix()));
    assert_eq!(row_total(a.transition_matrix(), 2), SCALE);
}

#[test]
fn stopped_machine_takes_no_observation() {
    let (mut machine, _tx) = MarkovMachine::new();
    assert!(matches!(machine.step(Event::Closed), Action::Stop));
    let before = snapshot(machine.transition_matrix());
    assert_eq!(machine.observe(State::new([0, 0]).observation(1, 2)).err(), Some(Recoverable::Stopped));
    assert_eq!(machine.apply([0, 0], None).err(), Some(Recoverable::Stopped));
    assert_eq!(snapshot(machine.transition_matrix()), before);
    assert_eq!(machine.buffered(), 0);
}

#[test]
fn end_to_end_scenario() {
    let (mut machine, tx) = MarkovMachine::new();
    let mut actor = State::new([0, 0]);
    actor.add_producer(tx);
    let obs = actor.observation(14, 12);
    assert_eq!(obs.source, [0, 0]);
    let action = machine.step(Event::Received(obs));
    assert!(matches!(action, Action::Offload { x: 14, y: 12 }));
    assert!(matches!(machine.phase(), Phase::Updating([0, 0])));
    let rate = compute(14, 12);
    assert_eq!(rate, Some(1_166_666_666));
    let update = match machine.step(Event::Computed(rate)) {
        Action::Updated(u) => u,
        other => panic!("unexpected {:?}", other),
    };
    assert!(matches!(machine.phase(), Phase::Idle));
    let m = machine.transition_matrix();
    assert_eq!(snapshot(m)[0], vec![630_769_232, 138_461_538, 230_769_230]);
    assert_eq!(row_total(m, 0), SCALE);
    assert_eq!(snapshot(m)[1], vec![600_000_000, 200_000_000, 200_000_000]);
    assert_eq!(update.cell, 630_769_232);
    assert_eq!(update.record, 160);
    assert!(update.flushed.is_none());
    assert_eq!(machine.buffered(), 1);
    let mut records = vec![update.record];
    for i in 1..BUFFER_CAPACITY {
        let u = machine.observe(actor.observation(14, 12)).unwrap();
        records.push(u.record);
        if i + 1 < BUFFER_CAPACITY {
            assert!(u.flushed.is_none());
            assert_eq!(machine.buffered(), i + 1);
        } else {
            assert_eq!(u.flushed, Some(records.clone()));
            assert_eq!(machine.buffered(), 0);
        }
    }
}

#[test]
fn step_ignores_out_of_phase_events() {
    let (mut machine, _tx) = MarkovMachine::new();
    assert!(matches!(machine.step(Event::Computed(Some(1))), Action::Ignored));
    let obs = State::new([2, 2]).observation(1, 2);
    assert!(matches!(machine.step(Event::Received(obs)), Action::Offload { x: 1, y: 2 }));
    assert!(matches!(machine.step(Event::Received(obs)), Action::Ignored));
    assert!(matches!(machine.step(Event::Computed(None)), Action::Skipped(Recoverable::NonFinite)));
    assert!(matches!(machine.phase(), Phase::Idle));
    assert!(matches!(machine.step(Event::Closed), Action::Stop));
    assert!(matches!(machine.phase(), Phase::Stopped));
    assert!(matches!(machine.step(Event::Received(obs)), Action::Stop));
}

#[test]
fn closing_while_updating_stops() {
    let (mut machine, _tx) = MarkovMachine::new();
    let obs = State::new([1, 0]).observation(4, 2);
    assert!(matches!(machine.step(Event::Received(obs)), Action::Offload { x: 4, y: 2 }));
    assert!(matches!(machine.step(Event::Closed), Action::Stop));
    assert!(matches!(machine.phase(), Phase::Stopped));
    assert!(matches!(machine.step(Event::Computed(Some(1))), Action::Stop));
}

#[test]
fn add_states_registers_in_order() {
    let (mut machine, _tx) = MarkovMachine::new();
    let states: Vec<State> = (0..3u8).map(|i| State::new([i, 2 - i])).collect();
    machine.add_states(&states);
    assert_eq!(machine.registered_count(), 3);
    machine.add_states(&vec![State::new([0, 0])]);
    assert_eq!(machine.registered_count(), 4);
}

#[test]
fn actor_without_producer_cannot_send() {
    let actor = State::new([0, 1]);
    assert_eq!(actor.state(), [0, 1]);
    assert!(actor.sender().is_none());
    assert_eq!(actor.try_send_state(1, 2), Err(StateErr::NoProducer));
}

#[test]
fn channel_capacity_one_applies_backpressure() {
    let (mut machine, tx) = MarkovMachine::new();
    let mut a = State::new([0, 0]);
    let mut b = State::new([1, 1]);
    a.add_producer(tx.clone());
    b.add_producer(tx);
    assert_eq!(a.try_send_state(14, 12), Ok(()));
    assert_eq!(b.try_send_state(1, 2), Err(StateErr::Full));
    let second = b.sender().unwrap();
    let mut pending = Box::pin(second.send(b.observation(1, 2)));
    assert!(pending.as_mut().now_or_never().is_none());
    let first = machine.receiver().try_recv().unwrap();
    assert_eq!(first.source, [0, 0]);
    assert_eq!((first.x, first.y), (14, 12));
    assert!(matches!(pending.as_mut().now_or_never(), Some(Ok(()))));
    let next = machine.receiver().try_recv().unwrap();
    assert_eq!(next.source, [1, 1]);
}

#[test]
fn send_fails_once_aggregator_is_gone() {
    let (machine, tx) = MarkovMachine::new();
    let mut a = State::new([2, 0]);
    a.add_producer(tx);
    drop(machine);
    assert_eq!(a.try_send_state(1, 1), Err(StateErr::SendFail));
}

#[test]
fn shutdown_terminates_run() {
    let rt = tokio::runtime::Builder::new_current_thread().build().unwrap();
    let (mut machine, tx) = MarkovMachine::new();
    let mut actor = State::new([0, 0]);
    actor.add_producer(tx);
    assert_eq!(actor.try_send_state(14, 12), Ok(()));
    drop(actor);
    let (updates, last) = rt.block_on(async {
        let mut updates = 0;
        loop {
            let next = machine.receiver().recv().await;
            let event = match next {
                Some(obs) => match machine.step(Event::Received(obs)) {
                    Action::Offload { x, y } => Event::Computed(compute(x, y)),
                    other => panic!("unexpected {:?}", other),
                },
                None => Event::Closed,
            };
            match machine.step(event) {
                Action::Updated(_) => updates += 1,
                Action::Stop => return (updates, Action::Stop),
                other => panic!("unexpected {:?}", other),
            }
        }
    });
    assert_eq!(updates, 1);
    assert!(matches!(last, Action::Stop));
    assert!(matches!(machine.phase(), Phase::Stopped));
}
