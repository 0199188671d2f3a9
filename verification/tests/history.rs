use delaynet::history::{History, HistoryError, ReadAtMultiply};
use delaynet::integration_methods::RungeKuttaDelay;
use delaynet::lorenz;
use delaynet::network::{Edge, Network};
use delaynet::ring::DelayLine;

type Lorenz = lorenz::System<f64>;

const DT: f64 = 1.0 / 64.0;

fn empty(nodes: usize) -> Network<f64> {
    Network::new(nodes, 0.05, 0.0, 100.0, 0, DT)
}

fn sample(value: f64) -> RungeKuttaDelay<f64> {
    RungeKuttaDelay { state: value, slope: 10.0 * value }
}

fn fault(network: &Network<f64>, dt: f64) -> HistoryError {
    match History::<Lorenz>::new(dt, network, true) {
        Ok(_) => panic!("the network was accepted"),
        Err(fault) => fault,
    }
}

#[test]
fn reader_is_made_of_its_parts() {
    let reader = ReadAtMultiply::new(3, 17, 0.5f64);
    assert_eq!(reader.at_node, 3);
    assert_eq!(reader.at_delay, 17);
    assert_eq!(reader.weight, 0.5);
}

#[test]
fn delay_line_drops_the_oldest_sample() {
    let mut line = DelayLine::filled(4, 0u32);
    assert_eq!(line.capacity(), 4);
    for value in 1..=6u32 {
        line.push(value);
    }
    // the line holds 3, 4, 5, 6
    assert_eq!(*line.get(-1), 6);
    assert_eq!(*line.get(-2), 5);
    assert_eq!(*line.get(-4), 3);
    assert_eq!(*line.get(0), 3);
    assert_eq!(*line.get(1), 4);
    assert_eq!(*line.get(3), 6);
    assert_eq!(*line.get(4), 3);
    assert_eq!(*line.get(-5), 6);
    assert_eq!(*line.get(-8), 3);
}

#[test]
fn delays_are_rounded_and_lines_cover_them() {
    let mut network = empty(1);
    network.put_edge(0, 0, 0.1, 0.0, 15.57);
    let history = History::<Lorenz>::new(DT, &network, true).ok().unwrap();
    assert_eq!(history.nodes(), 1);
    // 15.57 * 64 = 996.48: the reader looks 996 steps back, the line covers 997
    assert_eq!(history.node_readers(0)[0].at_delay, 996);
    assert_eq!(history.node_readers(0)[0].at_node, 0);
    assert_eq!(history.node_readers(0)[0].weight, 0.1);
    assert_eq!(history.capacity(0), 1024);
}

#[test]
fn a_line_is_as_long_as_its_longest_read() {
    let mut network = empty(3);
    network.put_edge(1, 0, 0.1, 0.0, 3.0);
    network.put_edge(2, 0, 0.1, 0.0, 40.0);
    network.put_edge(0, 1, 0.1, 0.0, 1.0);
    let own = History::<Lorenz>::new(DT, &network, false).ok().unwrap();
    assert_eq!(own.capacity(0), 4096);
    assert_eq!(own.capacity(1), 64);
    assert_eq!(own.capacity(2), 1);
    let equal = History::<Lorenz>::new(DT, &network, true).ok().unwrap();
    for node in 0..3 {
        assert_eq!(equal.capacity(node), 4096);
    }
    assert_eq!(own.node_readers(2)[0].at_delay, 2560);
    assert_eq!(own.node_readers(1)[0].at_delay, 192);
    assert_eq!(own.node_readers(0)[0].at_delay, 64);
    assert!(own.node_readers(2).len() == 1 && own.node_readers(0).len() == 1);
}

#[test]
fn capacities_are_powers_of_two() {
    for delay in [0.3, 1.0, 2.5, 7.77, 15.57, 20.0, 64.0, 100.0] {
        let mut network = empty(2);
        network.put_ring(0.1, 0.0, delay);
        let history = History::<Lorenz>::new(DT, &network, true).ok().unwrap();
        for node in 0..2 {
            let capacity = history.capacity(node);
            assert!(capacity.is_power_of_two());
            assert!(capacity as f64 >= (delay / DT).ceil());
            assert!((capacity as f64) < 2.0 * (delay / DT).ceil());
            assert_eq!(history.node_readers(node)[0].at_delay, (delay / DT).round() as usize);
        }
    }
}

#[test]
fn building_twice_gives_the_same_history() {
    let mut network = empty(4);
    network.put_bi_ring(0.1, 0.25, 7.3);
    network.put_jumps(1, 2, 1, 0.2, 0.0, 33.3);
    let first = History::<Lorenz>::new(DT, &network, false).ok().unwrap();
    let second = History::<Lorenz>::new(DT, &network, false).ok().unwrap();
    for node in 0..4 {
        assert_eq!(first.capacity(node), second.capacity(node));
        let a = first.node_readers(node);
        let b = second.node_readers(node);
        assert_eq!(a.len(), b.len());
        for (x, y) in a.iter().zip(b.iter()) {
            assert_eq!((x.at_node, x.at_delay, x.weight), (y.at_node, y.at_delay, y.weight));
        }
    }
}

#[test]
fn an_edge_from_a_missing_node_is_refused() {
    let mut network = empty(2);
    network.put_ring(0.1, 0.0, 5.0);
    network.edges.push(Edge { group: 1, into: 0, from: 2, strength: 0.1, turn: 0.0, delay: 5.0 });
    assert_eq!(fault(&network, DT), HistoryError::EdgeFromNonexistentNode);
}

#[test]
fn an_edge_into_a_missing_node_is_read_by_nobody() {
    let mut network = empty(2);
    network.put_ring(0.1, 0.0, 5.0);
    network.edges.push(Edge { group: 1, into: 9, from: 7, strength: 0.1, turn: 0.0, delay: 0.0 });
    let history = History::<Lorenz>::new(DT, &network, true).ok().unwrap();
    assert_eq!(history.node_readers(0).len(), 1);
    assert_eq!(history.node_readers(1).len(), 1);
}

#[test]
fn a_delay_that_is_not_above_zero_is_refused() {
    for delay in [0.0, -1.0, f64::NAN] {
        let mut network = empty(1);
        network.put_edge(0, 0, 0.1, 0.0, delay);
        assert_eq!(fault(&network, DT), HistoryError::DelayTooSmall);
    }
}

#[test]
fn a_delay_of_less_than_half_a_step_is_refused() {
    let mut network = empty(1);
    network.put_edge(0, 0, 0.1, 0.0, 0.49 * DT);
    assert_eq!(fault(&network, DT), HistoryError::DelayTooSmall);
    let mut network = empty(1);
    network.put_edge(0, 0, 0.1, 0.0, 0.5 * DT);
    assert!(History::<Lorenz>::new(DT, &network, true).is_ok());
}

#[test]
fn a_delay_beyond_all_step_counts_is_refused() {
    let mut network = empty(1);
    network.put_edge(0, 0, 0.1, 0.0, 1.0e9);
    assert_eq!(fault(&network, 1.0e-3), HistoryError::StepCountOutOfRange);
    assert_eq!(fault(&network, 0.0), HistoryError::StepCountOutOfRange);
    assert_eq!(fault(&network, -1.0), HistoryError::StepCountOutOfRange);
}

#[test]
fn the_first_fault_in_the_order_of_nodes_is_reported() {
    let mut network = empty(2);
    // into node 1: no source; into node 0: no delay
    network.edges.push(Edge { group: 0, into: 1, from: 5, strength: 0.1, turn: 0.0, delay: 1.0 });
    network.edges.push(Edge { group: 0, into: 0, from: 0, strength: 0.1, turn: 0.0, delay: 0.0 });
    assert_eq!(fault(&network, DT), HistoryError::DelayTooSmall);
}

#[test]
fn fresh_lines_hold_zeros() {
    let mut network = empty(2);
    network.put_ring(0.5, 0.0, 4.0 * DT);
    let history = History::<Lorenz>::new(DT, &network, true).ok().unwrap();
    for node in 0..2 {
        let taps = history.get_feedback_rk4(node);
        assert_eq!((taps[0].state, taps[0].slope), (0.0, 0.0));
        assert_eq!((taps[1].state, taps[1].slope), (0.0, 0.0));
        let tap = history.get_node_feedback(node);
        assert_eq!((tap.state, tap.slope), (0.0, 0.0));
    }
}

#[test]
fn a_self_loop_of_one_step_reads_what_was_pushed_last() {
    let mut network = empty(1);
    network.put_edge(0, 0, 0.5, 0.0, DT);
    let mut history = History::<Lorenz>::new(DT, &network, true).ok().unwrap();
    assert_eq!(history.node_readers(0)[0].at_delay, 1);
    for step in 1..10 {
        let value = step as f64;
        history.push_node_states(vec![sample(value)]);
        let taps = history.get_single_node_feedback_rk4();
        assert_eq!(taps[0].state, 0.5 * value);
        assert_eq!(taps[0].slope, 5.0 * value);
        let tap = history.get_node_feedback(0);
        assert_eq!(tap.state, 0.5 * value);
    }
}

#[test]
fn taps_bracket_the_delayed_instant() {
    let mut network = empty(2);
    network.put_edge(1, 0, 2.0, 0.0, 3.0 * DT);
    let mut history = History::<Lorenz>::new(DT, &network, true).ok().unwrap();
    assert_eq!(history.capacity(0), 4);
    for step in 1..=7 {
        history.push_node_states(vec![sample(step as f64), sample(100.0 + step as f64)]);
    }
    // node 0 has pushed 1..7: three steps back stands 5, one step later 6
    let taps = history.get_node_feedback_rk4(1);
    assert_eq!((taps[0].state, taps[1].state), (10.0, 12.0));
    assert_eq!((taps[0].slope, taps[1].slope), (100.0, 120.0));
    let all = history.get_all_feedback_rk4();
    assert_eq!(all.len(), 2);
    assert_eq!((all[1][0].state, all[1][1].state), (10.0, 12.0));
    assert_eq!((all[0][0].state, all[0][1].state), (0.0, 0.0));
    let single = history.get_all_feedback();
    assert_eq!((single[0].state, single[1].state), (0.0, 10.0));
    // the tap at the end of this step is the tap at the start of the next
    history.push_node_states(vec![sample(8.0), sample(108.0)]);
    let next = history.get_feedback_rk4(1);
    assert_eq!(next[0].state, taps[1].state);
}

#[test]
fn readings_are_added_up() {
    let mut network = empty(2);
    network.put_edge(0, 0, 0.5, 0.0, DT);
    network.put_edge(0, 1, 0.25, 0.0, 2.0 * DT);
    let mut history = History::<Lorenz>::new(DT, &network, true).ok().unwrap();
    history.push_node_state(0, sample(1.0));
    history.push_node_state(1, sample(2.0));
    history.push_node_state(0, sample(3.0));
    history.push_node_state(1, sample(4.0));
    // both lines hold two samples: node 0 holds 1, 3 and node 1 holds 2, 4
    let taps = history.get_feedback_rk4(0);
    assert_eq!(taps[0].state, 0.5 * 3.0 + 0.25 * 2.0);
    // one step after the newest sample the line wraps around to its oldest
    assert_eq!(taps[1].state, 0.5 * 1.0 + 0.25 * 4.0);
}

#[test]
fn pushing_fewer_samples_than_nodes_leaves_the_rest() {
    let mut network = empty(2);
    network.put_edge(0, 1, 1.0, 0.0, DT);
    network.put_edge(1, 0, 1.0, 0.0, DT);
    let mut history = History::<Lorenz>::new(DT, &network, true).ok().unwrap();
    history.push_node_states(vec![sample(7.0)]);
    assert_eq!(history.get_node_feedback(1).state, 7.0);
    assert_eq!(history.get_node_feedback(0).state, 0.0);
    history.push_node_states(vec![sample(1.0), sample(2.0), sample(3.0)]);
    assert_eq!(history.get_node_feedback(1).state, 1.0);
    assert_eq!(history.get_node_feedback(0).state, 2.0);
}

#[test]
fn setup_connections_rebuilds_or_leaves_alone() {
    let mut network = empty(1);
    network.put_edge(0, 0, 0.5, 0.0, DT);
    let mut history = History::<Lorenz>::new(DT, &network, true).ok().unwrap();
    history.push_node_state(0, sample(1.0));
    let mut bad = empty(1);
    bad.put_edge(0, 0, 0.5, 0.0, 0.0);
    assert_eq!(history.setup_connections(&bad, true), Err(HistoryError::DelayTooSmall));
    assert_eq!(history.get_node_feedback(0).state, 0.5);
    let mut wide = empty(3);
    wide.put_ring(0.5, 0.0, 8.0 * DT);
    assert_eq!(history.setup_connections(&wide, true), Ok(()));
    assert_eq!(history.nodes(), 3);
    assert_eq!(history.capacity(2), 8);
    assert_eq!(history.get_node_feedback(1).state, 0.0);
}

fn reads(lists: &[&[(usize, usize, f64)]]) -> Vec<Vec<ReadAtMultiply<f64>>> {
    lists
        .iter()
        .map(|list| list.iter().map(|&(node, delay, w)| ReadAtMultiply::new(node, delay, w)).collect())
        .collect()
}

#[test]
fn lines_cover_the_longest_read_of_their_node() {
    let edges = reads(&[&[(1, 5, 1.0), (2, 1, 1.0)], &[(0, 3, 1.0)], &[(1, 9, 1.0), (0, 4, 1.0)]]);
    let own = History::<Lorenz>::from_readers(DT, &edges, false).ok().unwrap();
    assert_eq!((own.capacity(0), own.capacity(1), own.capacity(2)), (4, 16, 1));
    let equal = History::<Lorenz>::from_readers(DT, &edges, true).ok().unwrap();
    assert_eq!((equal.capacity(0), equal.capacity(1), equal.capacity(2)), (16, 16, 16));
    assert_eq!(own.nodes(), 3);
    assert_eq!(own.node_readers(2)[0].at_delay, 9);
    assert_eq!(own.node_readers(0).len(), 2);
    let unread = History::<Lorenz>::from_readers(DT, &reads(&[&[], &[]]), false).ok().unwrap();
    assert_eq!((unread.capacity(0), unread.capacity(1)), (1, 1));
}

#[test]
fn readers_are_checked_in_their_order() {
    let fault = |lists: &[&[(usize, usize, f64)]]| {
        match History::<Lorenz>::from_readers(DT, &reads(lists), true) {
            Ok(_) => panic!("the readers were accepted"),
            Err(fault) => fault,
        }
    };
    assert_eq!(fault(&[&[(1, 1, 1.0)]]), HistoryError::EdgeFromNonexistentNode);
    assert_eq!(fault(&[&[(0, 0, 1.0)]]), HistoryError::DelayTooSmall);
    assert_eq!(fault(&[&[(0, 134217729, 1.0)]]), HistoryError::StepCountOutOfRange);
    assert_eq!(fault(&[&[(0, 1, 1.0), (0, 0, 1.0)], &[(7, 1, 1.0)]]), HistoryError::DelayTooSmall);
    assert_eq!(
        fault(&[&[(0, 1, 1.0)], &[(7, 0, 1.0), (0, 0, 1.0)]]),
        HistoryError::EdgeFromNonexistentNode
    );
}

#[test]
fn a_read_of_d_steps_sees_what_was_pushed_d_steps_ago() {
    let edges = reads(&[&[(0, 1, 1.0)], &[(0, 2, 1.0)], &[(0, 5, 1.0)], &[(0, 8, 1.0)]]);
    let mut history = History::<Lorenz>::from_readers(DT, &edges, false).ok().unwrap();
    assert_eq!(history.capacity(0), 8);
    for step in 1..=40 {
        let pushed = vec![sample(step as f64), sample(0.0), sample(0.0), sample(0.0)];
        history.push_node_states(pushed);
        for (node, delay) in [(0usize, 1i32), (1, 2), (2, 5), (3, 8)] {
            let back = step - (delay - 1);
            let expected = if back >= 1 { back as f64 } else { 0.0 };
            assert_eq!(history.get_node_feedback(node).state, expected);
        }
    }
}
